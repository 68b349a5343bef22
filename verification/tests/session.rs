use logx::filter::Filter;
use logx::session::{matching_entries, read_entries};
use logx::timestamp::Timestamp;

fn lines(v: &[&str]) -> Vec<String> {
    v.iter().map(|s| s.to_string()).collect()
}

#[test]
fn read_counts_all_looked_at_lines() {
    let ls = lines(&[
        "2026-03-17 10:32:01 ERROR a",
        "2026-03-17 10:32:02 WARN b",
        "2026-03-17 10:32:03 INFO c",
        "2026-03-17 10:32:04 FATAL d",
    ]);
    let f = Filter::build_at(Some("error"), None, None, None, false, Timestamp { secs: 0, nanos: 0 }).unwrap();
    let r = read_entries(&ls, None, &f);
    assert_eq!(r.errors, 2);
    assert_eq!(r.warns, 1);
    let msgs: Vec<&str> = r.shown.iter().map(|e| e.message.as_str()).collect();
    assert_eq!(msgs, vec!["a", "d"]);
}

#[test]
fn read_tail_takes_last_lines() {
    let ls = lines(&["ERROR one", "WARN two", "INFO three"]);
    let f = Filter::build_at(None, None, None, None, false, Timestamp { secs: 0, nanos: 0 }).unwrap();
    let r = read_entries(&ls, Some(2), &f);
    let msgs: Vec<&str> = r.shown.iter().map(|e| e.message.as_str()).collect();
    assert_eq!(msgs, vec!["WARN two", "INFO three"]);
    assert_eq!(r.errors, 0);
    assert_eq!(r.warns, 1);
    assert_eq!(read_entries(&ls, Some(10), &f).shown.len(), 3);
    assert_eq!(read_entries(&ls, Some(0), &f).shown.len(), 0);
}

#[test]
fn analyze_input_is_filtered() {
    let ls = lines(&["ERROR one", "INFO two"]);
    let f = Filter::build_at(Some("warn"), None, None, None, false, Timestamp { secs: 0, nanos: 0 }).unwrap();
    let es = matching_entries(&ls, &f);
    assert_eq!(es.len(), 1);
    assert_eq!(es[0].message, "ERROR one");
}
