use logx::aggregator::Aggregator;
use logx::correlator::Correlator;
use logx::filter::Filter;
use logx::parser::{LogEntry, Parser};
use logx::reporter::Reporter;
use logx::timestamp::Timestamp;
use logx::watcher::Watcher;

const T0: Timestamp = Timestamp { secs: 0, nanos: 0 };

#[test]
fn surrounding_space_does_not_change_the_entry() {
    let p = Parser::new();
    for raw in ["  2026-03-17 10:32:01 ERROR x ", "\t{\"level\":\"info\"}\n", " plain warn "] {
        let a = p.parse_line(raw);
        let b = p.parse_line(raw.trim());
        assert_eq!(a.level, b.level);
        assert_eq!(a.message, b.message);
        assert_eq!(a.timestamp, b.timestamp);
        assert_eq!(a.raw, b.raw);
    }
}

#[test]
fn inverted_pattern_is_the_complement() {
    let p = Parser::new();
    let f = Filter::build_at(None, None, None, Some("db"), false, T0).unwrap();
    let g = Filter::build_at(None, None, None, Some("db"), true, T0).unwrap();
    for raw in ["ERROR db down", "INFO cache warm", "DB restarted"] {
        let e = p.parse_line(raw);
        assert_ne!(f.matches(&e), g.matches(&e));
    }
}

#[test]
fn level_counts_fit_in_total() {
    let p = Parser::new();
    let es: Vec<LogEntry> = ["ERROR a", "WARN b", "odd", "INFO c", "TRACE d"].iter().map(|l| p.parse_line(l)).collect();
    let s = Aggregator::new().analyze(&es);
    assert!(s.error_count + s.warn_count + s.info_count + s.debug_count <= s.total_lines);
    assert_eq!(s.error_count + s.warn_count + s.info_count + s.debug_count, 4);
    for g in &s.top_errors {
        assert!(g.count <= s.error_count);
    }
}

#[test]
fn span_is_ordered() {
    let p = Parser::new();
    let es: Vec<LogEntry> = ["2026-03-17 10:33:10 INFO b", "2026-03-17 10:30:00 INFO a"].iter().map(|l| p.parse_line(l)).collect();
    let s = Aggregator::new().analyze(&es);
    assert!(s.earliest.unwrap().secs <= s.latest.unwrap().secs);
}

#[test]
fn spike_is_the_busiest_minute() {
    let p = Parser::new();
    let es: Vec<LogEntry> = [
        "2026-03-17 10:30:00 ERROR a",
        "2026-03-17 10:31:00 ERROR b",
        "2026-03-17 10:31:30 ERROR c",
        "2026-03-17 10:32:00 ERROR d",
    ]
    .iter()
    .map(|l| p.parse_line(l))
    .collect();
    let s = Aggregator::new().analyze(&es);
    assert!(s.time_buckets.iter().all(|b| b.errors <= s.spike_count));
    assert!(s.time_buckets.iter().any(|b| Some(b.start) == s.spike_at && b.errors == s.spike_count));
}

#[test]
fn timeline_is_sorted_and_complete() {
    let files = vec!["x.log".to_string(), "y.log".to_string()];
    let contents = vec![
        vec!["2026-03-17 10:33:00 INFO 1".to_string(), "INFO none".to_string()],
        vec!["2026-03-17 10:31:00 INFO 2".to_string(), "2026-03-17 10:32:00 INFO 3".to_string()],
    ];
    let f = Filter::build_at(None, None, None, None, false, T0).unwrap();
    let r = Correlator::new().run(&files, &contents, &f);
    assert_eq!(r.len(), 4);
    for w in r.windows(2) {
        match (w[0].entry.timestamp, w[1].entry.timestamp) {
            (Some(a), Some(b)) => assert!(a.secs <= b.secs),
            (None, Some(_)) => panic!("untimed entry before timed one"),
            _ => {}
        }
    }
}

#[test]
fn two_reads_equal_one() {
    let a: &[u8] = b"one\r\n\xff\xfe\n";
    let b: &[u8] = b"\ntwo\nthr";
    let mut w1 = Watcher::new("f");
    let mut got = w1.read_from_start(a);
    got.extend(w1.read_more(b));
    let mut w2 = Watcher::new("f");
    let all: Vec<u8> = [a, b].concat();
    let once = w2.read_from_start(&all);
    assert_eq!(got, once);
    assert_eq!(got, vec!["one".to_string(), "two".to_string(), "thr".to_string()]);
    assert_eq!(w1.position(), w2.position());
    assert_eq!(w1.position(), all.len() as u64);
}

#[test]
fn bars_span_their_width() {
    let r = Reporter::new();
    for (v, m, w) in [(0usize, 5usize, 30usize), (3, 7, 20), (7, 7, 20), (1, 0, 9)] {
        let b = r.make_bar(v, m, w);
        assert_eq!(b[0].text.chars().count() + b[1].text.chars().count(), w);
    }
}

#[test]
fn bucket_totals_count_each_stamped_entry_once() {
    let p = Parser::new();
    let es: Vec<LogEntry> = [
        "2026-03-17 10:30:05 ERROR a",
        "2026-03-17 10:30:55 INFO b",
        "no time here",
        "2026-03-17 10:34:00 WARN c",
        "2026-03-17 10:34:59 DEBUG d",
    ]
    .iter()
    .map(|l| p.parse_line(l))
    .collect();
    let s = Aggregator::new().analyze(&es);
    let sum: usize = s.time_buckets.iter().map(|b| b.total).sum();
    assert_eq!(sum, 4);
    assert_eq!(s.time_buckets.len(), 2);
}

#[test]
fn description_has_a_line_per_condition() {
    let none = Filter::build_at(None, None, None, None, false, T0).unwrap();
    assert_eq!(none.describe().len(), 0);
    let all = Filter::build_at(Some("warn"), Some("2026-03-17"), Some("2026-03-18"), Some("x"), false, T0).unwrap();
    assert_eq!(all.describe().len(), 4);
    let two = Filter::build_at(Some("error"), None, None, Some("x"), true, T0).unwrap();
    assert_eq!(two.describe().len(), 2);
}

#[test]
fn default_analysis_keeps_five_groups_and_whole_minutes() {
    let p = Parser::new();
    let lines: Vec<String> = (0..7).map(|i| format!("2026-03-17 10:3{}:1{} ERROR e{}", i, i, i)).collect();
    let es: Vec<LogEntry> = lines.iter().map(|l| p.parse_line(l)).collect();
    let s = Aggregator::new().analyze(&es);
    assert_eq!(s.top_errors.len(), 5);
    assert!(s.time_buckets.iter().all(|b| b.start.secs % 60 == 0));
    assert_eq!(s.time_buckets.len(), 7);
}
