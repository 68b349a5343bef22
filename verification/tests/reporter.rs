use logx::aggregator::Aggregator;
use logx::parser::{LogEntry, Parser};
use logx::reporter::{format_duration, Reporter};
use logx::style::Color;

fn summary_of(lines: &[&str]) -> logx::aggregator::AnalysisSummary {
    let p = Parser::new();
    let es: Vec<LogEntry> = lines.iter().map(|l| p.parse_line(l)).collect();
    Aggregator::new().analyze(&es)
}

#[test]
fn bars_fill_in_proportion() {
    let r = Reporter::new();
    let b = r.make_bar(5, 10, 30);
    assert_eq!(b[0].text, "█".repeat(15));
    assert_eq!(b[1].text, "░".repeat(15));
    assert_eq!(b[0].style.fg, Color::Blue);
    assert!(b[1].style.dimmed);
    let full = r.make_bar(7, 7, 20);
    assert_eq!(full[0].text.chars().count(), 20);
    assert_eq!(full[1].text, "");
    let none = r.make_bar(3, 0, 4);
    assert_eq!(none[0].text, "");
    assert_eq!(none[1].text, "░░░░");
    let third = r.make_bar(1, 3, 20);
    assert_eq!(third[0].text.chars().count(), 6);
    assert_eq!(third[1].text.chars().count(), 14);
}

#[test]
fn durations_read_naturally() {
    assert_eq!(format_duration(0), "0s");
    assert_eq!(format_duration(59), "59s");
    assert_eq!(format_duration(61), "1m 1s");
    assert_eq!(format_duration(3600), "1h 0m 0s");
    assert_eq!(format_duration(3725), "1h 2m 5s");
    assert_eq!(format_duration(-61), "-1s");
}

#[test]
fn level_rows_skip_empty_classes() {
    let s = summary_of(&[
        "2026-03-17 10:32:01 ERROR a",
        "2026-03-17 10:32:02 ERROR b",
        "2026-03-17 10:32:03 INFO c",
    ]);
    let rows = Reporter::new().level_rows(&s);
    assert_eq!(rows.len(), 2);
    assert_eq!(rows[0].label.text, "ERROR");
    assert_eq!(rows[0].count, 2);
    assert_eq!(rows[0].bar[0].text.chars().count(), 30);
    assert_eq!(rows[1].label.text, "INFO ");
    assert_eq!(rows[1].bar[0].text.chars().count(), 15);
    assert_eq!(rows[1].label.style.fg, Color::Green);
}

#[test]
fn timeline_rows_mark_the_spike() {
    let s = summary_of(&[
        "2026-03-17 10:30:00 INFO quiet",
        "2026-03-17 10:32:01 ERROR a",
        "2026-03-17 10:32:02 ERROR b",
        "2026-03-17 10:33:10 ERROR c",
    ]);
    let rows = Reporter::new().timeline_rows(&s);
    assert_eq!(rows.len(), 3);
    assert_eq!(rows[0].time, "10:30");
    assert_eq!(rows[0].suffix.text, "");
    assert_eq!(rows[1].time, "10:32");
    assert_eq!(rows[1].suffix.text, "  ⚠ 2 errors ← SPIKE");
    assert!(rows[1].suffix.style.bold);
    assert_eq!(rows[2].suffix.text, "  1 errors");
    assert_eq!(rows[1].bar[0].text.chars().count(), 20);
    assert_eq!(rows[2].bar[0].text.chars().count(), 10);
}

#[test]
fn spike_note_and_health() {
    let s = summary_of(&["2026-03-17 10:32:01 ERROR a", "2026-03-17 10:32:45 WARN w"]);
    let r = Reporter::new();
    let note = r.spike_note(&s).unwrap();
    let text: String = note.iter().map(|p| p.text.as_str()).collect();
    assert_eq!(text, "  ⚠ Peak at 10:32:00 — 1 errors in 1 minute");
    assert_eq!(r.health(&s).text, "🔴  1 errors detected");
    let w = summary_of(&["2026-03-17 10:32:45 WARN w", "WARN again"]);
    assert_eq!(r.health(&w).text, "🟡  No errors, 2 warnings to review");
    assert!(r.spike_note(&w).is_none());
    let ok = summary_of(&["2026-03-17 10:32:45 INFO fine"]);
    assert_eq!(r.health(&ok).text, "✅  No errors or warnings");
}

#[test]
fn time_span_shows_both_ends() {
    let s = summary_of(&["2026-03-17 10:30:00 INFO a", "2026-03-17 10:33:10 INFO b"]);
    let span = Reporter::new().time_span(&s).unwrap();
    assert_eq!(span, ("10:30:00".to_string(), "10:33:10".to_string(), "3m 10s".to_string()));
    let none = summary_of(&["no time"]);
    assert_eq!(Reporter::new().time_span(&none), None);
}

#[test]
fn time_span_counts_whole_seconds() {
    let s = summary_of(&[
        r#"{"level":"info","msg":"a","time":"2026-03-17T10:00:10.9Z"}"#,
        r#"{"level":"info","msg":"b","time":"2026-03-17T10:00:12.1Z"}"#,
    ]);
    let span = Reporter::new().time_span(&s).unwrap();
    assert_eq!(span.2, "1s");
}
