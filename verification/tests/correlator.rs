use logx::correlator::{color_of, format_level, service_from_stem, service_name, service_tag, Correlator};
use logx::filter::Filter;
use logx::parser::LogLevel;
use logx::style::Color;
use logx::timestamp::Timestamp;

fn lines(v: &[&str]) -> Vec<String> {
    v.iter().map(|s| s.to_string()).collect()
}

#[test]
fn service_names_drop_directory_and_extension() {
    assert_eq!(service_name("logs/api-service.log"), "api-service");
    assert_eq!(service_name("db.log"), "db");
    assert_eq!(service_name("/var/log/syslog"), "syslog");
    assert_eq!(service_name(""), "unknown");
    assert_eq!(service_name(".."), "unknown");
}

#[test]
fn timeline_merges_by_time_with_untimed_last() {
    let files = vec!["logs/api.log".to_string(), "logs/db.log".to_string()];
    let contents = vec![
        lines(&["2026-03-17 10:32:45 INFO api late", "untimed api error", "2026-03-17 10:30:00 WARN api early"]),
        lines(&["2026-03-17 10:32:01 ERROR db mid", "untimed db line", "2026-03-17 10:32:45 INFO db tie"]),
    ];
    let f = Filter::build_at(None, None, None, None, false, Timestamp { secs: 0, nanos: 0 }).unwrap();
    let r = Correlator::new().run(&files, &contents, &f);
    let msgs: Vec<&str> = r.iter().map(|t| t.entry.message.as_str()).collect();
    assert_eq!(
        msgs,
        vec!["api early", "db mid", "api late", "db tie", "untimed api error", "untimed db line"]
    );
    assert_eq!(r[0].color_index, 0);
    assert_eq!(r[1].color_index, 1);
    assert_eq!(r[0].entry.source, Some("api".to_string()));
    assert_eq!(r[1].entry.source, Some("db".to_string()));
}

#[test]
fn timeline_applies_the_filter() {
    let files = vec!["a.log".to_string(), "b.log".to_string()];
    let contents = vec![
        lines(&["2026-03-17 10:32:45 INFO a1", "2026-03-17 10:30:00 ERROR a2"]),
        lines(&["2026-03-17 10:31:00 ERROR b1"]),
    ];
    let f = Filter::build_at(Some("error"), None, None, None, false, Timestamp { secs: 0, nanos: 0 }).unwrap();
    let r = Correlator::new().run(&files, &contents, &f);
    let msgs: Vec<&str> = r.iter().map(|t| t.entry.message.as_str()).collect();
    assert_eq!(msgs, vec!["a2", "b1"]);
}

#[test]
fn service_colors_cycle() {
    assert_eq!(color_of(0), Color::Cyan);
    assert_eq!(color_of(1), Color::Magenta);
    assert_eq!(color_of(2), Color::Yellow);
    assert_eq!(color_of(3), Color::Green);
    assert_eq!(color_of(4), Color::Blue);
    assert_eq!(color_of(5), Color::Cyan);
}

#[test]
fn level_labels_have_fixed_width() {
    assert_eq!(format_level(&LogLevel::Error).text, " ERROR");
    assert!(format_level(&LogLevel::Error).style.bold);
    assert_eq!(format_level(&LogLevel::Error).style.fg, Color::Red);
    assert_eq!(format_level(&LogLevel::Info).text, "  INFO");
    assert_eq!(format_level(&LogLevel::Unknown).text, "   ???");
    assert_eq!(format_level(&LogLevel::Fatal).style.bg, Color::Red);
    assert_eq!(format_level(&LogLevel::Fatal).style.fg, Color::White);
    for l in [LogLevel::Trace, LogLevel::Debug, LogLevel::Info, LogLevel::Warn, LogLevel::Error, LogLevel::Fatal, LogLevel::Unknown] {
        assert_eq!(format_level(&l).text.chars().count(), 6);
    }
}

#[test]
fn missing_stem_names_unknown_service() {
    assert_eq!(service_from_stem(None), "unknown");
    assert_eq!(service_from_stem(Some("auth".to_string())), "auth");
}

#[test]
fn service_tags_keep_eight_bytes_and_pad() {
    assert_eq!(service_tag("api-service"), "[api-serv]");
    assert_eq!(service_tag("db"), "[db      ]");
    assert_eq!(service_tag(""), "[        ]");
    assert_eq!(service_tag("exactly8"), "[exactly8]");
    assert_eq!(service_tag("héllo-wor"), "[héllo-w ]");
}
