use logx::aggregator::Aggregator;
use logx::parser::{LogEntry, Parser};
use logx::timestamp::Timestamp;

fn parse_all(lines: &[&str]) -> Vec<LogEntry> {
    let p = Parser::new();
    lines.iter().map(|l| p.parse_line(l)).collect()
}

#[test]
fn counts_levels_and_span() {
    let es = parse_all(&[
        "2026-03-17 10:32:01 ERROR db down",
        "2026-03-17 10:32:45 WARN slow",
        "2026-03-17 10:33:10 INFO ok",
        "2026-03-17 10:30:00 DEBUG d",
        "2026-03-17 10:30:00 TRACE t",
        "2026-03-17 10:30:00 FATAL f",
        "no level line",
    ]);
    let s = Aggregator::new().analyze(&es);
    assert_eq!(s.total_lines, 7);
    assert_eq!(s.error_count, 2);
    assert_eq!(s.warn_count, 1);
    assert_eq!(s.info_count, 1);
    assert_eq!(s.debug_count, 2);
    assert_eq!(s.earliest, Some(Timestamp { secs: 1773743400, nanos: 0 }));
    assert_eq!(s.latest, Some(Timestamp { secs: 1773743590, nanos: 0 }));
}

#[test]
fn groups_rank_by_count_then_first_seen() {
    let es = parse_all(&[
        "2026-03-17 10:32:01 ERROR b",
        "2026-03-17 10:32:02 ERROR a",
        "2026-03-17 10:32:03 ERROR a",
        "2026-03-17 10:32:04 ERROR c",
        "2026-03-17 10:32:05 ERROR b",
        "2026-03-17 10:32:06 ERROR d",
        "2026-03-17 10:32:07 ERROR e",
        "2026-03-17 10:32:08 ERROR f",
        "2026-03-17 10:32:09 ERROR a",
        "2026-03-17 10:32:10 WARN w",
    ]);
    let s = Aggregator::new().analyze(&es);
    let names: Vec<&str> = s.top_errors.iter().map(|g| g.message.as_str()).collect();
    assert_eq!(names, vec!["a", "b", "c", "d", "e"]);
    assert_eq!(s.top_errors[0].count, 3);
    assert_eq!(s.top_errors[0].first_seen, Some(Timestamp { secs: 1773743522, nanos: 0 }));
    assert_eq!(s.top_errors[0].last_seen, Some(Timestamp { secs: 1773743529, nanos: 0 }));
    assert_eq!(s.top_errors[1].count, 2);
    assert_eq!(s.top_warns.len(), 1);
    assert_eq!(s.top_warns[0].message, "w");
}

#[test]
fn buckets_are_per_minute_in_time_order() {
    let es = parse_all(&[
        "2026-03-17 10:33:10 ERROR late",
        "2026-03-17 10:32:01 ERROR x",
        "2026-03-17 10:32:45 ERROR y",
        "2026-03-17 10:32:50 WARN w",
        "2026-03-17 10:30:00 INFO i",
        "plain line without time",
    ]);
    let s = Aggregator::new().analyze(&es);
    let starts: Vec<i64> = s.time_buckets.iter().map(|b| b.start.secs).collect();
    assert_eq!(starts, vec![1773743400, 1773743520, 1773743580]);
    assert_eq!(s.time_buckets[1].errors, 2);
    assert_eq!(s.time_buckets[1].warns, 1);
    assert_eq!(s.time_buckets[1].total, 3);
    assert_eq!(s.time_buckets[0].total, 1);
    assert_eq!(s.time_buckets[0].start.nanos, 0);
    assert_eq!(s.spike_at, Some(Timestamp { secs: 1773743520, nanos: 0 }));
    assert_eq!(s.spike_count, 2);
}

#[test]
fn spike_prefers_the_later_of_equal_minutes() {
    let es = parse_all(&["2026-03-17 10:32:01 ERROR x", "2026-03-17 10:33:10 ERROR y"]);
    let s = Aggregator::new().analyze(&es);
    assert_eq!(s.spike_at, Some(Timestamp { secs: 1773743580, nanos: 0 }));
    assert_eq!(s.spike_count, 1);
}

#[test]
fn no_timestamps_no_buckets() {
    let es = parse_all(&["error here", "warning there"]);
    let s = Aggregator::new().analyze(&es);
    assert!(s.time_buckets.is_empty());
    assert_eq!(s.spike_at, None);
    assert_eq!(s.spike_count, 0);
    assert_eq!(s.earliest, None);
    assert_eq!(s.top_errors[0].first_seen, None);
}

#[test]
fn buckets_before_epoch_start_at_or_before_the_time() {
    let mut e = Parser::new().parse_line("ERROR x");
    e.timestamp = Some(Timestamp { secs: -90, nanos: 5 });
    let mut f = Parser::new().parse_line("ERROR y");
    f.timestamp = Some(Timestamp { secs: -30, nanos: 0 });
    let s = Aggregator::new().analyze(&[e, f]);
    assert_eq!(s.time_buckets.len(), 2);
    assert_eq!(s.time_buckets[0].start, Timestamp { secs: -120, nanos: 0 });
    assert_eq!(s.time_buckets[1].start, Timestamp { secs: -60, nanos: 0 });
}

#[test]
fn empty_input_gives_empty_summary() {
    let s = Aggregator::new().analyze(&[]);
    assert_eq!(s.total_lines, 0);
    assert!(s.top_errors.is_empty());
    assert!(s.top_warns.is_empty());
}
