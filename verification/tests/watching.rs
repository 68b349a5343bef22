use logx::reader::Reader;
use logx::tui::{entry_to_listitem, App, Key};
use logx::style::Color;
use logx::watcher::Watcher;
use logx::parser::Parser;

#[test]
fn reader_keeps_read_nonempty_lines() {
    let r = Reader::new();
    let got = r.keep_lines(vec![Some("a".to_string()), None, Some(String::new()), Some("b".to_string())]);
    assert_eq!(got, vec!["a".to_string(), "b".to_string()]);
}

#[test]
fn watcher_counts_the_bytes_it_reads() {
    let mut w = Watcher::new("app.log");
    assert_eq!(w.position(), 0);
    assert_eq!(w.path(), "app.log");
    let got = w.read_from_start("aa\r\nbb\r\ncc\r\n".as_bytes());
    assert_eq!(got, vec!["aa".to_string(), "bb".to_string(), "cc".to_string()]);
    assert_eq!(w.position(), 12);
    assert!(w.read_more(b"").is_empty());
    assert_eq!(w.position(), 12);
    let more = w.read_more("héllo\n\nx".as_bytes());
    assert_eq!(more, vec!["héllo".to_string(), "x".to_string()]);
    assert_eq!(w.position(), 12 + 9);
    assert_eq!(Watcher::poll_interval(), 250);
}

#[test]
fn last_line_without_newline_keeps_its_carriage_return() {
    let mut w = Watcher::new("f");
    assert_eq!(w.read_from_start(b"a\r"), vec!["a\r".to_string()]);
}

#[test]
fn app_counts_and_scrolls() {
    let p = Parser::new();
    let mut app = App::new("f.log");
    app.push(p.parse_line("2026-03-17 10:32:01 ERROR a"));
    app.push(p.parse_line("2026-03-17 10:32:01 FATAL b"));
    app.push(p.parse_line("2026-03-17 10:32:01 WARN c"));
    app.push(p.parse_line("2026-03-17 10:32:01 INFO d"));
    assert_eq!(app.errors, 2);
    assert_eq!(app.warns, 1);
    app.scroll_to_bottom(3);
    assert_eq!(app.scroll, 1);
    app.scroll_to_bottom(10);
    assert_eq!(app.scroll, 0);
    app.scroll_down(2);
    assert_eq!(app.scroll, 1);
    app.scroll_down(2);
    assert_eq!(app.scroll, 2);
    app.scroll_down(2);
    assert_eq!(app.scroll, 2);
    app.scroll_up();
    assert_eq!(app.scroll, 1);
    app.scroll_up();
    app.scroll_up();
    assert_eq!(app.scroll, 0);
    app.follow(1);
    assert_eq!(app.scroll, 0);
    app.scroll_to_bottom(1);
    assert_eq!(app.scroll, 3);
    app.follow(1);
    assert_eq!(app.scroll, 3);
    app.follow(10);
    assert_eq!(app.scroll, 3);
}

#[test]
fn scrolling_up_survives_the_next_frame() {
    let p = Parser::new();
    let mut app = App::new("f.log");
    for _ in 0..10 {
        app.push(p.parse_line("INFO tick"));
    }
    app.follow(4);
    assert_eq!(app.scroll, 0);
    app.scroll_to_bottom(4);
    assert_eq!(app.scroll, 6);
    app.scroll_up();
    app.follow(4);
    assert_eq!(app.scroll, 5);
    app.scroll_down(4);
    app.follow(4);
    assert_eq!(app.scroll, 6);
}

#[test]
fn live_lines_show_time_level_and_message() {
    let p = Parser::new();
    let parts = entry_to_listitem(&p.parse_line("2026-03-17 10:32:01 ERROR disk full"));
    let texts: Vec<&str> = parts.iter().map(|s| s.text.as_str()).collect();
    assert_eq!(texts, vec!["10:32:01", "  ", " ERROR", "  ", "disk full"]);
    assert_eq!(parts[0].style.fg, Color::DarkGray);
    assert_eq!(parts[2].style.fg, Color::Red);
    assert!(parts[2].style.bold);
    assert_eq!(parts[4].style.fg, Color::Red);

    let plain = entry_to_listitem(&p.parse_line("just text"));
    assert_eq!(plain[0].text, "        ");
    assert_eq!(plain[2].text, "   ???");
    assert_eq!(plain[2].style.fg, Color::DarkGray);
    assert_eq!(plain[4].style.fg, Color::Default);
}

#[test]
fn keys_scroll_and_quit() {
    let p = Parser::new();
    let mut app = App::new("f.log");
    for _ in 0..5 {
        app.push(p.parse_line("INFO tick"));
    }
    assert!(!app.on_key(Key::Down, 2));
    assert_eq!(app.scroll, 1);
    assert!(!app.on_key(Key::Up, 0));
    assert_eq!(app.scroll, 0);
    assert!(!app.on_key(Key::Other, 0));
    assert_eq!(app.scroll, 0);
    assert!(app.on_key(Key::Quit, 0));
}
