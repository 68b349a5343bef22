use logx::parser::{LogLevel, Parser};
use logx::timestamp::Timestamp;

#[test]
fn level_words_ignore_case() {
    assert_eq!(LogLevel::from_str("error"), LogLevel::Error);
    assert_eq!(LogLevel::from_str("ERR"), LogLevel::Error);
    assert_eq!(LogLevel::from_str("Warning"), LogLevel::Warn);
    assert_eq!(LogLevel::from_str("information"), LogLevel::Info);
    assert_eq!(LogLevel::from_str("crit"), LogLevel::Fatal);
    assert_eq!(LogLevel::from_str("Critical"), LogLevel::Fatal);
    assert_eq!(LogLevel::from_str("trace"), LogLevel::Trace);
    assert_eq!(LogLevel::from_str("debug"), LogLevel::Debug);
    assert_eq!(LogLevel::from_str("verbose"), LogLevel::Unknown);
    assert_eq!(LogLevel::from_str(""), LogLevel::Unknown);
}

#[test]
fn priorities_rank_severity() {
    assert_eq!(LogLevel::Trace.priority(), 0);
    assert_eq!(LogLevel::Debug.priority(), 1);
    assert_eq!(LogLevel::Info.priority(), 2);
    assert_eq!(LogLevel::Warn.priority(), 3);
    assert_eq!(LogLevel::Error.priority(), 4);
    assert_eq!(LogLevel::Fatal.priority(), 5);
    assert_eq!(LogLevel::Unknown.priority(), 2);
}

#[test]
fn standard_line_is_split() {
    let p = Parser::new();
    let e = p.parse_line("2026-03-17 10:32:01 ERROR Database connection failed");
    assert_eq!(e.level, LogLevel::Error);
    assert_eq!(e.message, "Database connection failed");
    assert_eq!(e.timestamp, Some(Timestamp { secs: 1773743521, nanos: 0 }));
    assert_eq!(e.raw, "2026-03-17 10:32:01 ERROR Database connection failed");
    assert_eq!(e.source, None);
}

#[test]
fn standard_line_is_trimmed() {
    let p = Parser::new();
    let e = p.parse_line("   2026-03-17 10:32:01   warn   disk  \t");
    assert_eq!(e.level, LogLevel::Warn);
    assert_eq!(e.message, "disk");
    assert_eq!(e.raw, "2026-03-17 10:32:01   warn   disk");
}

#[test]
fn standard_line_with_t_separator_has_no_timestamp() {
    let p = Parser::new();
    let e = p.parse_line("2026-03-17T10:32:01 INFO started");
    assert_eq!(e.level, LogLevel::Info);
    assert_eq!(e.message, "started");
    assert_eq!(e.timestamp, None);
}

#[test]
fn json_line_reads_fields() {
    let p = Parser::new();
    let e = p.parse_line(r#"{"level":"warn","msg":"disk almost full","time":"2026-03-17T10:00:00Z"}"#);
    assert_eq!(e.level, LogLevel::Warn);
    assert_eq!(e.message, "disk almost full");
    assert_eq!(e.timestamp, Some(Timestamp { secs: 1773741600, nanos: 0 }));
}

#[test]
fn json_line_uses_alternate_keys() {
    let p = Parser::new();
    let e = p.parse_line(r#"{"severity":"ERROR","body":"boom","ts":"2026-03-17T10:00:00.5+01:00"}"#);
    assert_eq!(e.level, LogLevel::Error);
    assert_eq!(e.message, "boom");
    assert_eq!(e.timestamp, Some(Timestamp { secs: 1773741600 - 3600, nanos: 500_000_000 }));
}

#[test]
fn json_line_without_fields_falls_back() {
    let p = Parser::new();
    let raw = r#"{"level": 3, "other": "x"}"#;
    let e = p.parse_line(raw);
    assert_eq!(e.level, LogLevel::Unknown);
    assert_eq!(e.message, raw);
    assert_eq!(e.timestamp, None);
}

#[test]
fn broken_json_is_read_as_plain() {
    let p = Parser::new();
    let e = p.parse_line("{not json but has ERROR inside");
    assert_eq!(e.level, LogLevel::Error);
    assert_eq!(e.message, "{not json but has ERROR inside");
}

#[test]
fn plain_line_finds_level_word() {
    let p = Parser::new();
    let e = p.parse_line("request failed: warning, retrying");
    assert_eq!(e.level, LogLevel::Warn);
    assert_eq!(e.message, "request failed: warning, retrying");
    assert_eq!(e.timestamp, None);
    let e2 = p.parse_line("nothing to see");
    assert_eq!(e2.level, LogLevel::Unknown);
    let e3 = p.parse_line("errors everywhere");
    assert_eq!(e3.level, LogLevel::Unknown);
}

#[test]
fn timestamps_read_rfc3339_then_layout() {
    assert_eq!(
        Parser::parse_timestamp("2026-03-17 10:32:01"),
        Some(Timestamp { secs: 1773743521, nanos: 0 })
    );
    assert_eq!(
        Parser::parse_timestamp("2026-03-17T10:32:01Z"),
        Some(Timestamp { secs: 1773743521, nanos: 0 })
    );
    assert_eq!(Parser::parse_timestamp("yesterday"), None);
}

#[test]
fn entry_copy_is_equal() {
    let p = Parser::new();
    let e = p.parse_line("2026-03-17 10:32:01 ERROR x");
    let c = e.copy();
    assert_eq!(c.message, e.message);
    assert_eq!(c.raw, e.raw);
    assert_eq!(c.level, e.level);
    assert_eq!(c.timestamp, e.timestamp);
}
