use logx::filter::{parse_time, Filter};
use logx::parser::Parser;
use logx::timestamp::Timestamp;

const NOW: Timestamp = Timestamp { secs: 1773743565, nanos: 0 };

#[test]
fn empty_filter_shows_everything() {
    let f = Filter::build_at(None, None, None, None, false, NOW).unwrap();
    let p = Parser::new();
    assert!(f.matches(&p.parse_line("2026-03-17 10:32:01 TRACE x")));
    assert!(f.matches(&p.parse_line("whatever")));
    assert!(f.describe().is_empty());
}

#[test]
fn level_filter_keeps_more_severe() {
    let f = Filter::build_at(Some("warn"), None, None, None, false, NOW).unwrap();
    assert_eq!(f.min_level, 3);
    let p = Parser::new();
    assert!(f.matches(&p.parse_line("2026-03-17 10:32:01 ERROR x")));
    assert!(f.matches(&p.parse_line("2026-03-17 10:32:01 WARN x")));
    assert!(!f.matches(&p.parse_line("2026-03-17 10:32:01 INFO x")));
    assert_eq!(f.describe(), vec!["level ≥ WARN".to_string()]);
}

#[test]
fn unknown_level_word_is_refused() {
    let r = Filter::build_at(Some("loud"), None, None, None, false, NOW);
    assert_eq!(
        r.err().unwrap(),
        "Unknown level 'loud'. Try: trace, debug, info, warn, error, fatal"
    );
    assert!(Filter::build_at(Some("Warning"), None, None, None, false, NOW).is_ok());
}

#[test]
fn time_range_filters_stamped_entries() {
    let f = Filter::build_at(None, Some("2026-03-17 10:30:00"), Some("2026-03-17 10:32:30"), None, false, NOW)
        .unwrap();
    assert_eq!(f.since, Some(Timestamp { secs: 1773743400, nanos: 0 }));
    let p = Parser::new();
    assert!(f.matches(&p.parse_line("2026-03-17 10:32:01 INFO in")));
    assert!(!f.matches(&p.parse_line("2026-03-17 10:32:45 INFO after")));
    assert!(!f.matches(&p.parse_line("2026-03-17 10:00:00 INFO before")));
    assert!(f.matches(&p.parse_line("no timestamp at all")));
    assert_eq!(
        f.describe(),
        vec!["since 2026-03-17 10:30:00".to_string(), "until 2026-03-17 10:32:30".to_string()]
    );
}

#[test]
fn day_means_midnight() {
    let f = Filter::build_at(None, Some(" 2026-03-17 "), None, None, false, NOW).unwrap();
    assert_eq!(f.since, Some(Timestamp { secs: 1773705600, nanos: 0 }));
}

#[test]
fn relative_times_count_back_from_now() {
    let f = Filter::build_at(None, Some("30m"), Some("1h"), None, false, NOW).unwrap();
    assert_eq!(f.since, Some(Timestamp { secs: 1773743565 - 1800, nanos: 0 }));
    assert_eq!(f.until, Some(Timestamp { secs: 1773743565 - 3600, nanos: 0 }));
    let g = Filter::build_at(None, Some("2d"), Some("10s"), None, false, NOW).unwrap();
    assert_eq!(g.since, Some(Timestamp { secs: 1773743565 - 2 * 86400, nanos: 0 }));
    assert_eq!(g.until, Some(Timestamp { secs: 1773743565 - 10, nanos: 0 }));
    let h = Filter::build_at(None, Some("+5min"), Some("-1hr"), None, false, NOW).unwrap();
    assert_eq!(h.since, Some(Timestamp { secs: 1773743565 - 300, nanos: 0 }));
    assert_eq!(h.until, Some(Timestamp { secs: 1773743565 + 3600, nanos: 0 }));
}

#[test]
fn unreadable_time_is_refused() {
    let r = Filter::build_at(None, Some("soon"), None, None, false, NOW);
    assert_eq!(
        r.err(),
        Some("Cannot parse time 'soon'. Try: '30m', '2h', '1d', '2026-03-17', '2026-03-17 10:30:00'".to_string())
    );
    let r2 = Filter::build_at(None, None, Some("5 weeks"), None, false, NOW);
    assert!(r2.is_err());
    let r3 = Filter::build_at(None, None, Some("3w"), None, false, NOW);
    assert!(r3.is_err());
}

#[test]
fn offset_beyond_range_is_refused() {
    let r = Filter::build_at(None, Some("99999999999999999d"), None, None, false, NOW);
    assert_eq!(r.err(), Some("Time offset out of range: '99999999999999999d'".to_string()));
    let r2 = Filter::build_at(None, Some("9223372036854775s"), None, None, false, NOW);
    assert!(r2.is_err());
}

#[test]
fn pattern_matches_case_insensitively() {
    let f = Filter::build_at(None, None, None, Some("timeout"), false, NOW).unwrap();
    assert_eq!(f.pattern, Some("(?i)timeout".to_string()));
    let p = Parser::new();
    assert!(f.matches(&p.parse_line("2026-03-17 10:32:01 ERROR Request TIMEOUT")));
    assert!(!f.matches(&p.parse_line("2026-03-17 10:32:01 ERROR other")));
    assert_eq!(f.describe(), vec!["matching /timeout/".to_string()]);
}

#[test]
fn inverted_pattern_hides_matches() {
    let f = Filter::build_at(None, None, None, Some("timeout"), true, NOW).unwrap();
    let p = Parser::new();
    assert!(!f.matches(&p.parse_line("Request TIMEOUT")));
    assert!(f.matches(&p.parse_line("other")));
    assert_eq!(f.describe(), vec!["not matching /timeout/".to_string()]);
}

#[test]
fn bad_pattern_is_refused() {
    let r = Filter::build_at(None, None, None, Some("a(b"), false, NOW);
    let msg = r.err().unwrap();
    assert!(msg.starts_with("Invalid pattern 'a(b': "));
    assert!(msg.len() > "Invalid pattern 'a(b': ".len());
}

#[test]
fn describe_strips_repeated_case_flags() {
    let f = Filter::build_at(Some("error"), None, None, Some("(?i)x"), false, NOW).unwrap();
    assert_eq!(f.describe(), vec!["level ≥ ERROR".to_string(), "matching /x/".to_string()]);
}

#[test]
fn build_reads_the_clock() {
    let f = Filter::build(Some("info"), Some("2026-03-17"), None, None, false).unwrap();
    assert_eq!(f.min_level, 2);
    assert_eq!(f.since, Some(Timestamp { secs: 1773705600, nanos: 0 }));
    let g = Filter::build(None, Some("1h"), None, None, false).unwrap();
    assert!(g.since.is_some());
}

#[test]
fn time_expressions_parse() {
    assert_eq!(
        logx::filter::parse_time("2026-03-17 10:30:00", Some(NOW)),
        Ok(Timestamp { secs: 1773743400, nanos: 0 })
    );
    assert!(logx::filter::parse_time("", Some(NOW)).is_err());
    assert_eq!(logx::filter::unit_secs("hr"), Some(3600));
    assert_eq!(logx::filter::unit_secs("weeks"), None);
    assert_eq!(logx::filter::level_name_of(5), "FATAL");
    assert_eq!(logx::filter::level_name_of(9), "TRACE");
}

#[test]
fn offsets_count_back_and_stop_at_chrono_range() {
    let now = Timestamp { secs: 1_000_000, nanos: 7 };
    assert_eq!(parse_time("30m", Some(now)), Ok(Timestamp { secs: 1_000_000 - 1800, nanos: 7 }));
    assert_eq!(parse_time("-2h", Some(now)), Ok(Timestamp { secs: 1_000_000 + 7200, nanos: 7 }));
    let max = Timestamp { secs: 8210266876799, nanos: 0 };
    assert_eq!(parse_time("0s", Some(max)), Ok(max));
    assert!(parse_time("-1s", Some(max)).is_err());
    let min = Timestamp { secs: -8334601228800, nanos: 0 };
    assert_eq!(parse_time("0s", Some(min)), Ok(min));
    assert!(parse_time("1s", Some(min)).is_err());
    assert!(parse_time("9223372036854776s", Some(now)).is_err());
    assert_eq!(
        parse_time("9223372036854775s", Some(Timestamp { secs: 0, nanos: 0 })),
        Err("Time offset out of range: '9223372036854775s'".to_string())
    );
}

#[test]
fn build_without_offsets_does_not_need_the_clock() {
    assert_eq!(
        Filter::build(None, Some("yesterday"), None, None, false).err().unwrap(),
        "Cannot parse time 'yesterday'. Try: '30m', '2h', '1d', '2026-03-17', '2026-03-17 10:30:00'"
    );
    let f = Filter::build(Some("WARN"), Some("2026-03-17"), Some(" 2026-03-17 10:30:00 "), None, true).unwrap();
    assert_eq!(f.min_level, 3);
    assert_eq!(f.since, Some(Timestamp { secs: 1773705600, nanos: 0 }));
    assert_eq!(f.until, Some(Timestamp { secs: 1773705600 + 37800, nanos: 0 }));
    assert!(f.pattern.is_none());
    assert!(f.invert_match);
}

#[test]
fn an_offset_without_a_clock_reading_is_refused() {
    assert_eq!(parse_time("30m", None), Err("Cannot read the system clock".to_string()));
    assert!(parse_time("2026-03-17", None).is_ok());
    assert_eq!(
        Filter::build_with(Some("loud"), Some("30m"), None, None, false, None).err().unwrap(),
        "Unknown level 'loud'. Try: trace, debug, info, warn, error, fatal"
    );
    assert_eq!(
        Filter::build_with(None, Some("30m"), None, None, false, None).err().unwrap(),
        "Cannot read the system clock"
    );
    assert!(Filter::build(None, Some("30m"), None, None, false).is_ok());
}
