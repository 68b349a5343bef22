use logx::formatter::{highlight, Formatter};
use logx::parser::{LogLevel, Parser};
use logx::style::Color;

#[test]
fn highlight_marks_every_match_ignoring_case() {
    let r = highlight("Timeout after timeout", "TIMEOUT");
    assert_eq!(
        r,
        vec![
            ("".to_string(), false),
            ("Timeout".to_string(), true),
            (" after ".to_string(), false),
            ("timeout".to_string(), true),
            ("".to_string(), false),
        ]
    );
}

#[test]
fn highlight_without_match_keeps_text() {
    assert_eq!(highlight("nothing here", "zzz"), vec![("nothing here".to_string(), false)]);
}

#[test]
fn highlight_pieces_rejoin() {
    let text = "aXbxcXX";
    let r = highlight(text, "x");
    let joined: String = r.iter().map(|(s, _)| s.as_str()).collect();
    assert_eq!(joined, text);
    assert_eq!(r.iter().filter(|(_, m)| *m).count(), 4);
}

#[test]
fn highlight_marks_the_text_own_characters() {
    let r = highlight("İx error", "ERROR");
    assert_eq!(
        r,
        vec![("İx ".to_string(), false), ("error".to_string(), true), ("".to_string(), false)]
    );
}

#[test]
fn empty_pattern_marks_nothing() {
    assert_eq!(highlight("disk full", ""), vec![("disk full".to_string(), false)]);
    let e = Parser::new().parse_line("2026-03-17 10:32:01 WARN disk full");
    let parts = Formatter::new(Some(String::new())).format(&e);
    let texts: Vec<&str> = parts.iter().map(|p| p.text.as_str()).collect();
    assert_eq!(texts[4..].to_vec(), vec!["disk full"]);
    assert_eq!(parts[4].style.fg, Color::Yellow);
}

#[test]
fn format_lays_out_time_level_message() {
    let e = Parser::new().parse_line("2026-03-17 10:32:01 ERROR boom");
    let f = Formatter::new(None);
    let parts = f.format(&e);
    let texts: Vec<&str> = parts.iter().map(|p| p.text.as_str()).collect();
    assert_eq!(texts, vec!["2026-03-17 10:32:01", "  ", " ERROR", "  ", "boom"]);
    assert!(parts[0].style.dimmed);
    assert_eq!(parts[4].style.fg, Color::Red);
}

#[test]
fn format_pads_missing_time() {
    let e = Parser::new().parse_line("just text");
    let parts = Formatter::new(None).format(&e);
    assert_eq!(parts[0].text, "                   ");
    assert_eq!(parts[2].text, "   ???");
}

#[test]
fn format_marks_search_matches() {
    let e = Parser::new().parse_line("2026-03-17 10:32:01 WARN disk Full of files");
    let parts = Formatter::new(Some("full".to_string())).format(&e);
    let texts: Vec<&str> = parts.iter().map(|p| p.text.as_str()).collect();
    assert_eq!(texts[4..].to_vec(), vec!["disk ", "Full", " of files"]);
    assert_eq!(parts[4].style.fg, Color::Yellow);
    assert_eq!(parts[5].style.bg, Color::Yellow);
    assert_eq!(parts[5].style.fg, Color::Black);
    assert_eq!(parts[6].style.fg, Color::Yellow);
}

#[test]
fn formatter_level_labels() {
    let f = Formatter::new(None);
    assert_eq!(f.format_level(&LogLevel::Warn).text, "  WARN");
    assert_eq!(f.format_level(&LogLevel::Trace).text, " TRACE");
    let m = f.format_message("x", &LogLevel::Debug);
    assert!(m[0].style.dimmed);
}

#[test]
fn highlight_lowers_the_whole_text_where_it_lines_up() {
    assert_eq!(highlight("ΑΣ", "σ"), vec![("ΑΣ".to_string(), false)]);
    assert_eq!(
        highlight("ΑΣ", "ς"),
        vec![("Α".to_string(), false), ("Σ".to_string(), true), ("".to_string(), false)]
    );
}
