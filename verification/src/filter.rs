//! Which entries to show: by level, by time range and by a pattern.

use vstd::prelude::*;
use crate::parser::{LogEntry, EntryView, LogLevel, level_of, DATETIME_FORMAT};
use crate::text::{
    chars_of, sub_chars, trim, trimmed, concat_str, substring, parse_i64, i64_of, str_eq, trim_start_matches,
    strip_prefixes,
};
use crate::timestamp::{Timestamp, ts_of};
use crate::trusted::{
    string_of, is_alphabetic, alphabetic_of, parse_naive_datetime, naive_datetime_of,
    parse_naive_date, naive_date_of, minus_seconds, minus_seconds_of, utc_now,
    format_timestamp, formatted_of, regex_error, regex_error_of, regex_is_match, chrono_min_secs,
    chrono_max_secs,
    regex_is_match_of,
};

verus! {

/// The date layout accepted for a day.
pub const DATE_FORMAT: &'static str = "%Y-%m-%d";

/// A set of conditions on entries, built once and applied to every line.
pub struct Filter {
    /// Lowest severity rank shown.
    pub min_level: u8,
    pub since: Option<Timestamp>,
    pub until: Option<Timestamp>,
    /// The case-insensitive regular expression, as compiled (with its `(?i)` prefix).
    pub pattern: Option<String>,
    pub invert_match: bool,
}

pub struct FilterView {
    pub min_level: u8,
    pub since: Option<Timestamp>,
    pub until: Option<Timestamp>,
    pub pattern: Option<Seq<char>>,
    pub invert_match: bool,
}

impl View for Filter {
    type V = FilterView;

    open spec fn view(&self) -> FilterView {
        FilterView {
            min_level: self.min_level,
            since: self.since,
            until: self.until,
            pattern: self.pattern.deep_view(),
            invert_match: self.invert_match,
        }
    }
}

/// Whether the filter lets the entry through.
pub open spec fn admits(f: FilterView, e: EntryView) -> bool {
    if e.level.rank() < f.min_level {
        false
    } else if e.timestamp is Some && f.since is Some && e.timestamp->0.before(f.since->0) {
        false
    } else if e.timestamp is Some && f.until is Some && f.until->0.before(e.timestamp->0) {
        false
    } else {
        match f.pattern {
            Some(p) => if f.invert_match {
                !regex_is_match_of(p, e.raw)
            } else {
                regex_is_match_of(p, e.raw)
            },
            None => true,
        }
    }
}

/// How a time expression reads as an offset back from now.
pub enum Relative {
    /// It is not of the form number and unit.
    NotRelative,
    /// It names this time.
    At(Timestamp),
    /// It is of that form, but the offset or the time it names is out of range.
    OutOfRange,
    /// It is an offset in range, but there is no clock reading to count it back from.
    NoClock,
}

/// Index of the first alphabetic character of `s` at or after `i` (`s.len()` when none).
pub open spec fn first_alpha(s: Seq<char>, i: int) -> int
    decreases s.len() - i,
{
    if i < 0 || i >= s.len() {
        s.len() as int
    } else if alphabetic_of(s[i]) {
        i
    } else {
        first_alpha(s, i + 1)
    }
}

/// Seconds in one of the accepted units.
pub open spec fn unit_seconds(u: Seq<char>) -> Option<i64> {
    if u == "s"@ {
        Some(1)
    } else if u == "m"@ || u == "min"@ {
        Some(60)
    } else if u == "h"@ || u == "hr"@ {
        Some(3600)
    } else if u == "d"@ {
        Some(86400)
    } else {
        None
    }
}

/// Reads `s` as a count and a unit ("30m", "2h", "1d"), counted back from `now`.
pub open spec fn relative_of(s: Seq<char>, clock: Option<Timestamp>) -> Relative {
    let split = first_alpha(s, 0);
    if split >= s.len() {
        Relative::NotRelative
    } else {
        match i64_of(s.subrange(0, split)) {
            None => Relative::NotRelative,
            Some(n) => match unit_seconds(s.subrange(split, s.len() as int)) {
                None => Relative::NotRelative,
                Some(m) => if n * m < i64::MIN || n * m > i64::MAX {
                    Relative::OutOfRange
                } else {
                    match clock {
                        None => Relative::NoClock,
                        Some(now) => match minus_seconds_of(now.secs, now.nanos, (n * m) as i64) {
                            Some(p) => Relative::At(ts_of(p)),
                            None => Relative::OutOfRange,
                        },
                    }
                },
            },
        }
    }
}

/// The message for a time expression that cannot be read.
pub open spec fn time_error(t: Seq<char>) -> Seq<char> {
    "Cannot parse time '"@ + t
        + "'. Try: '30m', '2h', '1d', '2026-03-17', '2026-03-17 10:30:00'"@
}

/// The message for a clock that cannot be read (it reads before 1970, or beyond the times
/// that can be held).
pub open spec fn clock_error() -> Seq<char> {
    "Cannot read the system clock"@
}

/// The message for a level word that names no level.
pub open spec fn level_error(l: Seq<char>) -> Seq<char> {
    "Unknown level '"@ + l + "'. Try: trace, debug, info, warn, error, fatal"@
}

/// The message for an offset that reaches beyond the representable times.
pub open spec fn offset_error(t: Seq<char>) -> Seq<char> {
    "Time offset out of range: '"@ + t + "'"@
}

/// The time that a time expression names, counted from `now` when it is an offset.
pub open spec fn time_of(s: Seq<char>, clock: Option<Timestamp>) -> Result<Timestamp, Seq<char>> {
    let t = trimmed(s);
    match relative_of(t, clock) {
        Relative::At(ts) => Ok(ts),
        Relative::OutOfRange => Err(offset_error(t)),
        Relative::NoClock => Err(clock_error()),
        Relative::NotRelative => match naive_datetime_of(t, DATETIME_FORMAT@) {
            Some(p) => Ok(ts_of(p)),
            None => match naive_date_of(t, DATE_FORMAT@) {
                Some(d) => Ok(Timestamp { secs: d, nanos: 0 }),
                None => Err(time_error(t)),
            },
        },
    }
}

/// An optional time expression read as an optional time.
pub open spec fn opt_time_of(s: Option<Seq<char>>, clock: Option<Timestamp>) -> Result<
    Option<Timestamp>,
    Seq<char>,
> {
    match s {
        None => Ok(None),
        Some(x) => match time_of(x, clock) {
            Ok(t) => Ok(Some(t)),
            Err(e) => Err(e),
        },
    }
}

/// The filter that the command-line options describe, or the message of the first
/// option that is refused.
pub open spec fn filter_of(
    level: Option<Seq<char>>,
    since: Option<Seq<char>>,
    until: Option<Seq<char>>,
    grep: Option<Seq<char>>,
    invert: bool,
    clock: Option<Timestamp>,
) -> Result<FilterView, Seq<char>> {
    let min_level = match level {
        Some(l) => level_of(l).rank(),
        None => 0,
    };
    if level matches Some(l) && level_of(l) == LogLevel::Unknown {
        Err(level_error(level->0))
    } else {
        match opt_time_of(since, clock) {
            Err(e) => Err(e),
            Ok(si) => match opt_time_of(until, clock) {
                Err(e) => Err(e),
                Ok(un) => match grep {
                    None => Ok(
                        FilterView { min_level, since: si, until: un, pattern: None, invert_match: invert },
                    ),
                    Some(p) => match regex_error_of("(?i)"@ + p) {
                        Some(e) => Err("Invalid pattern '"@ + p + "': "@ + e),
                        None => Ok(
                            FilterView {
                                min_level,
                                since: si,
                                until: un,
                                pattern: Some("(?i)"@ + p),
                                invert_match: invert,
                            },
                        ),
                    },
                },
            },
        }
    }
}

/// The name shown for a minimum severity rank.
pub open spec fn level_name(l: u8) -> Seq<char> {
    if l == 1 {
        "DEBUG"@
    } else if l == 2 {
        "INFO"@
    } else if l == 3 {
        "WARN"@
    } else if l == 4 {
        "ERROR"@
    } else if l == 5 {
        "FATAL"@
    } else {
        "TRACE"@
    }
}

/// A time as the summary of filters shows it (empty when it cannot be shown).
pub open spec fn shown_time(t: Timestamp) -> Seq<char> {
    match formatted_of(t.secs, t.nanos, DATETIME_FORMAT@) {
        Some(s) => s,
        None => Seq::empty(),
    }
}

/// One line per active condition.
pub open spec fn description(f: FilterView) -> Seq<Seq<char>> {
    let a: Seq<Seq<char>> = if f.min_level > 0 {
        seq!["level ≥ "@ + level_name(f.min_level)]
    } else {
        seq![]
    };
    let b: Seq<Seq<char>> = match f.since {
        Some(t) => seq!["since "@ + shown_time(t)],
        None => seq![],
    };
    let c: Seq<Seq<char>> = match f.until {
        Some(t) => seq!["until "@ + shown_time(t)],
        None => seq![],
    };
    let d: Seq<Seq<char>> = match f.pattern {
        Some(p) => seq![
            (if f.invert_match { "not matching"@ } else { "matching"@ }) + " /"@
                + strip_prefixes(p, "(?i)"@) + "/"@,
        ],
        None => seq![],
    };
    a + b + c + d
}


/// The seconds in a unit word, when it is one of the accepted units.
pub fn unit_secs(u: &str) -> (r: Option<i64>)
    ensures
        r == unit_seconds(u@),
{
    if str_eq(u, "s") {
        Some(1)
    } else if str_eq(u, "m") || str_eq(u, "min") {
        Some(60)
    } else if str_eq(u, "h") || str_eq(u, "hr") {
        Some(3600)
    } else if str_eq(u, "d") {
        Some(86400)
    } else {
        None
    }
}

/// Reads a count and unit such as "30m", counted back from `now`.
pub fn try_relative(s: &[char], clock: Option<Timestamp>) -> (r: Relative)
    ensures
        r == relative_of(s@, clock),
{
    let n = s.len();
    let mut split: usize = 0;
    while split < n && !is_alphabetic(s[split])
        invariant
            split <= n,
            n == s@.len(),
            first_alpha(s@, 0) == first_alpha(s@, split as int),
        decreases n - split,
    {
        split = split + 1;
    }
    if split >= n {
        return Relative::NotRelative;
    }
    let digits = sub_chars(s, 0, split);
    let count = match parse_i64(digits.as_slice()) {
        Some(c) => c,
        None => return Relative::NotRelative,
    };
    let unit = substring(s, split, n);
    let mult = match unit_secs(unit.as_str()) {
        Some(m) => m,
        None => return Relative::NotRelative,
    };
    match count.checked_mul(mult) {
        None => Relative::OutOfRange,
        Some(delta) => match clock {
            None => Relative::NoClock,
            Some(now) => match minus_seconds(now.secs, now.nanos, delta) {
                Some(p) => Relative::At(Timestamp::from_pair(p)),
                None => Relative::OutOfRange,
            },
        },
    }
}

/// Reads a time expression: an offset back from `now` ("30m", "2h", "1d"), a date and
/// time ("2026-03-17 10:30:00") or a date ("2026-03-17", at midnight).
pub fn parse_time(s: &str, clock: Option<Timestamp>) -> (r: Result<Timestamp, String>)
    ensures
        match time_of(s@, clock) {
            Ok(t) => r == Ok::<Timestamp, String>(t),
            Err(e) => r matches Err(m) && m@ == e,
        },
{
    let cs = chars_of(s);
    let t = trim(cs.as_slice());
    let ts = string_of(t.as_slice());
    match try_relative(t.as_slice(), clock) {
        Relative::At(x) => Ok(x),
        Relative::NoClock => Err(string_of(chars_of("Cannot read the system clock").as_slice())),
        Relative::OutOfRange => {
            let m = concat_str("Time offset out of range: '", ts.as_str());
            Err(concat_str(m.as_str(), "'"))
        },
        Relative::NotRelative => match parse_naive_datetime(ts.as_str(), DATETIME_FORMAT) {
            Some(p) => Ok(Timestamp::from_pair(p)),
            None => match parse_naive_date(ts.as_str(), DATE_FORMAT) {
                Some(d) => Ok(Timestamp { secs: d, nanos: 0 }),
                None => {
                    let m = concat_str("Cannot parse time '", ts.as_str());
                    Err(
                        concat_str(
                            m.as_str(),
                            "'. Try: '30m', '2h', '1d', '2026-03-17', '2026-03-17 10:30:00'",
                        ),
                    )
                },
            },
        },
    }
}

/// An optional time expression read as an optional time.
pub fn parse_opt_time(s: Option<&str>, clock: Option<Timestamp>) -> (r: Result<
    Option<Timestamp>,
    String,
>)
    ensures
        match opt_time_of(s.deep_view(), clock) {
            Ok(t) => r == Ok::<Option<Timestamp>, String>(t),
            Err(e) => r matches Err(m) && m@ == e,
        },
{
    match s {
        None => Ok(None),
        Some(x) => match parse_time(x, clock) {
            Ok(t) => Ok(Some(t)),
            Err(e) => Err(e),
        },
    }
}

/// The time expression is an offset in range ("30m"), which only the clock can place.
pub open spec fn needs_clock(s: Option<Seq<char>>) -> bool {
    s matches Some(x) && relative_of(trimmed(x), None) is NoClock
}

/// Whether a time expression needs the clock.
fn needs_clock_of(s: Option<&str>) -> (r: bool)
    ensures
        r == needs_clock(s.deep_view()),
{
    match s {
        None => false,
        Some(x) => {
            let cs = chars_of(x);
            let t = trim(cs.as_slice());
            match try_relative(t.as_slice(), None) {
                Relative::NoClock => true,
                _ => false,
            }
        },
    }
}

/// Without an offset, a clock reading changes nothing.
proof fn lemma_clock_unneeded(
    level: Option<Seq<char>>,
    since: Option<Seq<char>>,
    until: Option<Seq<char>>,
    grep: Option<Seq<char>>,
    invert: bool,
    now: Timestamp,
)
    requires
        !needs_clock(since),
        !needs_clock(until),
    ensures
        filter_of(level, since, until, grep, invert, None) == filter_of(level, since, until, grep, invert, Some(now)),
{
    if since is Some {
        let t = trimmed(since->0);
        assert(relative_of(t, None) !is NoClock);
        assert(time_of(since->0, None) == time_of(since->0, Some(now)));
    }
    if until is Some {
        let t = trimmed(until->0);
        assert(relative_of(t, None) !is NoClock);
        assert(time_of(until->0, None) == time_of(until->0, Some(now)));
    }
}

/// With a clock reading, no refusal is the clock's.
proof fn lemma_not_clock_error(
    level: Option<Seq<char>>,
    since: Option<Seq<char>>,
    until: Option<Seq<char>>,
    grep: Option<Seq<char>>,
    invert: bool,
    now: Timestamp,
)
    ensures
        filter_of(level, since, until, grep, invert, Some(now)) matches Err(e) ==> e != clock_error(),
{
    reveal_strlit("Cannot read the system clock");
    reveal_strlit("Unknown level '");
    reveal_strlit("Cannot parse time '");
    reveal_strlit("Time offset out of range: '");
    reveal_strlit("Invalid pattern '");
    let c = clock_error();
    if let Err(e) = filter_of(level, since, until, grep, invert, Some(now)) {
        if e == c {
            if level matches Some(l) && level_of(l) == LogLevel::Unknown {
                assert(e[0] == 'U');
            } else if since is Some && time_of(since->0, Some(now)) is Err {
                let t = trimmed(since->0);
                if relative_of(t, Some(now)) is OutOfRange {
                    assert(e[0] == 'T');
                } else {
                    assert(e[7] == 'p');
                }
            } else if until is Some && time_of(until->0, Some(now)) is Err {
                let t = trimmed(until->0);
                if relative_of(t, Some(now)) is OutOfRange {
                    assert(e[0] == 'T');
                } else {
                    assert(e[7] == 'p');
                }
            } else {
                assert(e[0] == 'I');
            }
            assert(c[0] == 'C' && c[7] == 'r');
        }
    }
}

/// A filter result taken as views.
pub open spec fn filter_result_view(r: Result<Filter, String>) -> Result<FilterView, Seq<char>> {
    match r {
        Ok(f) => Ok(f@),
        Err(e) => Err(e@),
    }
}

/// The name shown for a minimum severity rank.
pub fn level_name_of(l: u8) -> (r: &'static str)
    ensures
        r@ == level_name(l),
{
    match l {
        1 => "DEBUG",
        2 => "INFO",
        3 => "WARN",
        4 => "ERROR",
        5 => "FATAL",
        _ => "TRACE",
    }
}

impl Filter {
    /// Builds a filter from command-line options. The clock is read only when a time
    /// expression is an offset ("30m"); the result is then what `build_with` gives for the
    /// time read (in chrono's range, not within a leap second), or for no reading when the
    /// clock cannot be read. Without offsets the clock plays no part.
    pub fn build(
        level: Option<&str>,
        since: Option<&str>,
        until: Option<&str>,
        grep: Option<&str>,
        invert: bool,
    ) -> (r: Result<Filter, String>)
        ensures
            !needs_clock(since.deep_view()) && !needs_clock(until.deep_view()) ==> forall|now: Timestamp|
                filter_result_view(r) == #[trigger] filter_of(
                    level.deep_view(),
                    since.deep_view(),
                    until.deep_view(),
                    grep.deep_view(),
                    invert,
                    Some(now),
                ),
            needs_clock(since.deep_view()) || needs_clock(until.deep_view()) ==> filter_result_view(r)
                == filter_of(
                level.deep_view(),
                since.deep_view(),
                until.deep_view(),
                grep.deep_view(),
                invert,
                None,
            ) || exists|now: Timestamp|
                {
                    &&& chrono_min_secs() <= now.secs <= chrono_max_secs()
                    &&& now.nanos < 1_000_000_000
                    &&& filter_result_view(r) == #[trigger] filter_of(
                        level.deep_view(),
                        since.deep_view(),
                        until.deep_view(),
                        grep.deep_view(),
                        invert,
                        Some(now),
                    )
                },
            r matches Err(e) && e@ == clock_error() ==> needs_clock(since.deep_view()) || needs_clock(
                until.deep_view(),
            ),
    {
        let needs = needs_clock_of(since) || needs_clock_of(until);
        let clock = if needs {
            match utc_now() {
                Some(p) => Some(Timestamp::from_pair(p)),
                None => None,
            }
        } else {
            None
        };
        let r = Filter::build_with(level, since, until, grep, invert, clock);
        proof {
            let (l, si, un, g) = (level.deep_view(), since.deep_view(), until.deep_view(), grep.deep_view());
            if !needs {
                assert forall|now: Timestamp| filter_result_view(r) == #[trigger] filter_of(l, si, un, g, invert, Some(now)) by {
                    lemma_clock_unneeded(l, si, un, g, invert, now);
                }
                lemma_not_clock_error(l, si, un, g, invert, Timestamp { secs: 0, nanos: 0 });
                lemma_clock_unneeded(l, si, un, g, invert, Timestamp { secs: 0, nanos: 0 });
            }
        }
        r
    }

    /// Builds a filter from command-line options, reading offsets back from `now`.
    pub fn build_at(
        level: Option<&str>,
        since: Option<&str>,
        until: Option<&str>,
        grep: Option<&str>,
        invert: bool,
        now: Timestamp,
    ) -> (r: Result<Filter, String>)
        ensures
            filter_result_view(r) == filter_of(
                level.deep_view(),
                since.deep_view(),
                until.deep_view(),
                grep.deep_view(),
                invert,
                Some(now),
            ),
    {
        Filter::build_with(level, since, until, grep, invert, Some(now))
    }

    /// Builds a filter from command-line options, reading offsets back from the clock reading
    /// `clock` (an offset with no reading is refused with `clock_error`): the lowest level
    /// shown, the time range and the case-insensitive pattern.
    pub fn build_with(
        level: Option<&str>,
        since: Option<&str>,
        until: Option<&str>,
        grep: Option<&str>,
        invert: bool,
        clock: Option<Timestamp>,
    ) -> (r: Result<Filter, String>)
        ensures
            filter_result_view(r) == filter_of(
                level.deep_view(),
                since.deep_view(),
                until.deep_view(),
                grep.deep_view(),
                invert,
                clock,
            ),
    {
        let min_level = match level {
            Some(l) => {
                let lv = LogLevel::from_str(l);
                if lv == LogLevel::Unknown {
                    let m = concat_str("Unknown level '", l);
                    return Err(concat_str(m.as_str(), "'. Try: trace, debug, info, warn, error, fatal"));
                }
                lv.priority()
            },
            None => 0,
        };
        let si = match parse_opt_time(since, clock) {
            Ok(t) => t,
            Err(e) => return Err(e),
        };
        let un = match parse_opt_time(until, clock) {
            Ok(t) => t,
            Err(e) => return Err(e),
        };
        match grep {
            None => Ok(Filter { min_level, since: si, until: un, pattern: None, invert_match: invert }),
            Some(p) => {
                let full = concat_str("(?i)", p);
                match regex_error(full.as_str()) {
                    Some(e) => {
                        let m1 = concat_str("Invalid pattern '", p);
                        let m2 = concat_str(m1.as_str(), "': ");
                        Err(concat_str(m2.as_str(), e.as_str()))
                    },
                    None => Ok(
                        Filter {
                            min_level,
                            since: si,
                            until: un,
                            pattern: Some(full),
                            invert_match: invert,
                        },
                    ),
                }
            },
        }
    }

    /// Whether this entry should be shown.
    pub fn matches(&self, entry: &LogEntry) -> (r: bool)
        ensures
            r == admits(self@, entry@),
    {
        if entry.level.priority() < self.min_level {
            return false;
        }
        if let Some(ts) = entry.timestamp {
            if let Some(since) = self.since {
                if ts.is_before(&since) {
                    return false;
                }
            }
            if let Some(until) = self.until {
                if until.is_before(&ts) {
                    return false;
                }
            }
        }
        match &self.pattern {
            Some(p) => {
                let is_match = regex_is_match(p.as_str(), entry.raw.as_str());
                if self.invert_match {
                    !is_match
                } else {
                    is_match
                }
            },
            None => true,
        }
    }

    /// A human-readable line for each active condition.
    pub fn describe(&self) -> (r: Vec<String>)
        ensures
            r.deep_view() == description(self@),
    {
        let mut parts: Vec<String> = Vec::new();
        if self.min_level > 0 {
            parts.push(concat_str("level ≥ ", level_name_of(self.min_level)));
        }
        if let Some(s) = self.since {
            let shown = match format_timestamp(s.secs, s.nanos, DATETIME_FORMAT) {
                Some(x) => x,
                None => String::new(),
            };
            parts.push(concat_str("since ", shown.as_str()));
        }
        if let Some(u) = self.until {
            let shown = match format_timestamp(u.secs, u.nanos, DATETIME_FORMAT) {
                Some(x) => x,
                None => String::new(),
            };
            parts.push(concat_str("until ", shown.as_str()));
        }
        if let Some(p) = &self.pattern {
            let prefix = if self.invert_match { "not matching" } else { "matching" };
            let a = concat_str(prefix, " /");
            let body = trim_start_matches(p.as_str(), "(?i)");
            let b = concat_str(a.as_str(), body.as_str());
            parts.push(concat_str(b.as_str(), "/"));
        }
        proof {
            let f = self@;
            assert(parts.deep_view() =~= description(f));
        }
        parts
    }
}

} // verus!
