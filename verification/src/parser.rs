//! Log levels, parsed log entries, and the parser that turns a raw line into an entry.

use vstd::prelude::*;
use crate::text::{chars_of, str_eq, trim, trimmed};
use crate::timestamp::{Timestamp, ts_of};
use crate::trusted::{
    string_of, to_uppercase, uppercase_of, regex_captures, regex_captures_of,
    json_string_fields, json_fields_of, parse_rfc3339, rfc3339_of, parse_naive_datetime,
    naive_datetime_of,
};

verus! {

/// The severity of a log line.
#[derive(Clone, Copy, Debug, PartialEq, Eq, Structural)]
pub enum LogLevel {
    Trace,
    Debug,
    Info,
    Warn,
    Error,
    Fatal,
    Unknown,
}

/// The level named by an already upper-cased level word.
pub open spec fn level_of_upper(u: Seq<char>) -> LogLevel {
    if u == "TRACE"@ {
        LogLevel::Trace
    } else if u == "DEBUG"@ {
        LogLevel::Debug
    } else if u == "INFO"@ || u == "INFORMATION"@ {
        LogLevel::Info
    } else if u == "WARN"@ || u == "WARNING"@ {
        LogLevel::Warn
    } else if u == "ERROR"@ || u == "ERR"@ {
        LogLevel::Error
    } else if u == "FATAL"@ || u == "CRITICAL"@ || u == "CRIT"@ {
        LogLevel::Fatal
    } else {
        LogLevel::Unknown
    }
}

/// The level that a level word names, ignoring case.
pub open spec fn level_of(s: Seq<char>) -> LogLevel {
    level_of_upper(uppercase_of(s))
}

impl LogLevel {
    /// Severity rank, higher is more severe; `Unknown` ranks with `Info`.
    pub open spec fn rank(self) -> u8 {
        match self {
            LogLevel::Trace => 0,
            LogLevel::Debug => 1,
            LogLevel::Info => 2,
            LogLevel::Warn => 3,
            LogLevel::Error => 4,
            LogLevel::Fatal => 5,
            LogLevel::Unknown => 2,
        }
    }

    /// Reads a level word such as "error" or "Warning", ignoring case.
    pub fn from_str(s: &str) -> (r: LogLevel)
        ensures
            r == level_of(s@),
    {
        let u = to_uppercase(s);
        LogLevel::from_upper(u.as_str())
    }

    /// Reads an upper-cased level word.
    pub fn from_upper(u: &str) -> (r: LogLevel)
        ensures
            r == level_of_upper(u@),
    {
        if str_eq(u, "TRACE") {
            LogLevel::Trace
        } else if str_eq(u, "DEBUG") {
            LogLevel::Debug
        } else if str_eq(u, "INFO") || str_eq(u, "INFORMATION") {
            LogLevel::Info
        } else if str_eq(u, "WARN") || str_eq(u, "WARNING") {
            LogLevel::Warn
        } else if str_eq(u, "ERROR") || str_eq(u, "ERR") {
            LogLevel::Error
        } else if str_eq(u, "FATAL") || str_eq(u, "CRITICAL") || str_eq(u, "CRIT") {
            LogLevel::Fatal
        } else {
            LogLevel::Unknown
        }
    }

    /// Severity rank used by level filtering: higher is more severe.
    pub fn priority(&self) -> (r: u8)
        ensures
            r == self.rank(),
    {
        match self {
            LogLevel::Trace => 0,
            LogLevel::Debug => 1,
            LogLevel::Info => 2,
            LogLevel::Warn => 3,
            LogLevel::Error => 4,
            LogLevel::Fatal => 5,
            LogLevel::Unknown => 2,
        }
    }
}


/// One parsed log line.
#[derive(Clone, Debug)]
pub struct LogEntry {
    pub level: LogLevel,
    pub message: String,
    pub timestamp: Option<Timestamp>,
    pub raw: String,
    /// The service (file) the line came from, where known.
    pub source: Option<String>,
}

impl LogEntry {
    /// A copy of the entry.
    pub fn copy(&self) -> (r: LogEntry)
        ensures
            r@ == self@,
    {
        LogEntry {
            level: self.level,
            message: self.message.clone(),
            timestamp: self.timestamp,
            raw: self.raw.clone(),
            source: match &self.source {
                Some(s) => Some(s.clone()),
                None => None,
            },
        }
    }
}

/// A log entry with its strings taken as character sequences.
pub struct EntryView {
    pub level: LogLevel,
    pub message: Seq<char>,
    pub timestamp: Option<Timestamp>,
    pub raw: Seq<char>,
    pub source: Option<Seq<char>>,
}

impl View for LogEntry {
    type V = EntryView;

    open spec fn view(&self) -> EntryView {
        EntryView {
            level: self.level,
            message: self.message@,
            timestamp: self.timestamp,
            raw: self.raw@,
            source: self.source.deep_view(),
        }
    }
}

/// The pattern of a standard line: date and time, level word, message.
pub const STANDARD_PATTERN: &'static str = "(?P<ts>\\d{4}-\\d{2}-\\d{2}[T\\s]\\d{2}:\\d{2}:\\d{2})\\s+(?P<level>\\w+)\\s+(?P<msg>.+)";

/// The pattern that finds a level word anywhere in a line, ignoring case.
pub const LEVEL_PATTERN: &'static str = "(?i)\\b(trace|debug|info|warn(?:ing)?|error|fatal|critical)\\b";

/// The date-time layout of a standard line's timestamp.
pub const DATETIME_FORMAT: &'static str = "%Y-%m-%d %H:%M:%S";

/// The string value that a JSON object's members give `key`: that of the first member with
/// this key, `None` when there is none or its value is not a string.
pub open spec fn json_value(fields: Seq<(Seq<char>, Option<Seq<char>>)>, key: Seq<char>) -> Option<
    Seq<char>,
>
    decreases fields.len(),
{
    if fields.len() == 0 {
        None
    } else if fields[0].0 == key {
        fields[0].1
    } else {
        json_value(fields.drop_first(), key)
    }
}

/// The first of three keys that holds a string value, and that value.
pub open spec fn json_first(
    fields: Seq<(Seq<char>, Option<Seq<char>>)>,
    k1: Seq<char>,
    k2: Seq<char>,
    k3: Seq<char>,
) -> Option<Seq<char>> {
    match json_value(fields, k1) {
        Some(v) => Some(v),
        None => match json_value(fields, k2) {
            Some(v) => Some(v),
            None => json_value(fields, k3),
        },
    }
}

/// The timestamp written in `s`: RFC 3339 first, else `DATETIME_FORMAT` read as UTC.
pub open spec fn timestamp_of(s: Seq<char>) -> Option<Timestamp> {
    match rfc3339_of(s) {
        Some(p) => Some(ts_of(p)),
        None => match naive_datetime_of(s, DATETIME_FORMAT@) {
            Some(p) => Some(ts_of(p)),
            None => None,
        },
    }
}

/// The entry that a JSON line gives, from its members.
pub open spec fn json_entry(fields: Seq<(Seq<char>, Option<Seq<char>>)>, raw: Seq<char>) -> EntryView {
    EntryView {
        level: match json_first(fields, "level"@, "severity"@, "lvl"@) {
            Some(l) => level_of(l),
            None => level_of("unknown"@),
        },
        message: match json_first(fields, "msg"@, "message"@, "body"@) {
            Some(m) => m,
            None => raw,
        },
        timestamp: match json_first(fields, "time"@, "timestamp"@, "ts"@) {
            Some(t) => match rfc3339_of(t) {
                Some(p) => Some(ts_of(p)),
                None => None,
            },
            None => None,
        },
        raw: raw,
        source: None,
    }
}

/// The timestamp, level and message groups of a standard-pattern match, when all took part.
pub open spec fn standard_parts(caps: Option<Seq<Option<Seq<char>>>>) -> Option<
    (Seq<char>, Seq<char>, Seq<char>),
> {
    match caps {
        Some(g) => if g.len() >= 4 && g[1] is Some && g[2] is Some && g[3] is Some {
            Some((g[1]->0, g[2]->0, g[3]->0))
        } else {
            None
        },
        None => None,
    }
}

/// The entry that a standard line gives, from its timestamp, level and message groups.
pub open spec fn standard_entry(parts: (Seq<char>, Seq<char>, Seq<char>), raw: Seq<char>) -> EntryView {
    EntryView {
        level: level_of(parts.1),
        message: parts.2,
        timestamp: timestamp_of(parts.0),
        raw: raw,
        source: None,
    }
}

/// The entry that any other line gives: the level word found in it, if any.
pub open spec fn plain_entry(caps: Option<Seq<Option<Seq<char>>>>, raw: Seq<char>) -> EntryView {
    EntryView {
        level: match caps {
            Some(g) => if g.len() >= 2 && g[1] is Some {
                level_of(g[1]->0)
            } else {
                LogLevel::Unknown
            },
            None => LogLevel::Unknown,
        },
        message: raw,
        timestamp: None,
        raw: raw,
        source: None,
    }
}

/// The entry that a raw line gives: JSON when the trimmed line starts with `{` and is JSON,
/// else the standard layout when it matches, else a plain line.
pub open spec fn parsed(raw: Seq<char>) -> EntryView {
    let t = trimmed(raw);
    if t.len() > 0 && t[0] == '{' && json_fields_of(t) is Some {
        json_entry(json_fields_of(t)->0, t)
    } else {
        match standard_parts(regex_captures_of(STANDARD_PATTERN@, t)) {
            Some(p) => standard_entry(p, t),
            None => plain_entry(regex_captures_of(LEVEL_PATTERN@, t), t),
        }
    }
}

/// The string value of `key` among a JSON object's members.
pub fn json_lookup(fields: &Vec<(String, Option<String>)>, key: &str) -> (r: Option<String>)
    ensures
        r.deep_view() == json_value(fields.deep_view(), key@),
{
    let ghost fv = fields.deep_view();
    let mut i: usize = 0;
    assert(fv.skip(0) =~= fv);
    while i < fields.len()
        invariant
            i <= fields@.len(),
            fv == fields.deep_view(),
            json_value(fv, key@) == json_value(fv.skip(i as int), key@),
        decreases fields@.len() - i,
    {
        assert(fv.skip(i as int).drop_first() =~= fv.skip(i + 1));
        assert(fv.skip(i as int)[0] == fv[i as int]);
        if str_eq(fields[i].0.as_str(), key) {
            return match &fields[i].1 {
                Some(v) => Some(v.clone()),
                None => None,
            };
        }
        i = i + 1;
    }
    None
}

/// The value of the first of three keys that holds a string.
pub fn json_lookup_first(
    fields: &Vec<(String, Option<String>)>,
    k1: &str,
    k2: &str,
    k3: &str,
) -> (r: Option<String>)
    ensures
        r.deep_view() == json_first(fields.deep_view(), k1@, k2@, k3@),
{
    match json_lookup(fields, k1) {
        Some(v) => Some(v),
        None => match json_lookup(fields, k2) {
            Some(v) => Some(v),
            None => json_lookup(fields, k3),
        },
    }
}

/// Turns a raw log line into an entry.
pub struct Parser;

impl Parser {
    pub fn new() -> (r: Parser) {
        Parser
    }

    /// Parses one raw line: JSON, else the standard layout, else a plain line.
    pub fn parse_line(&self, raw: &str) -> (r: LogEntry)
        ensures
            r@ == parsed(raw@),
    {
        let cs = chars_of(raw);
        let t = trim(cs.as_slice());
        let trimmed_line = string_of(t.as_slice());
        if t.len() > 0 && t[0] == '{' {
            if let Some(fields) = json_string_fields(trimmed_line.as_str()) {
                return self.try_json(&fields, trimmed_line);
            }
        }
        let caps = regex_captures(STANDARD_PATTERN, trimmed_line.as_str());
        match self.try_standard(&caps, &trimmed_line) {
            Some(e) => e,
            None => {
                let level_caps = regex_captures(LEVEL_PATTERN, trimmed_line.as_str());
                self.try_plain(&level_caps, trimmed_line)
            },
        }
    }

    /// The entry of a JSON line, from the members of its object.
    pub fn try_json(&self, fields: &Vec<(String, Option<String>)>, raw: String) -> (r: LogEntry)
        ensures
            r@ == json_entry(fields.deep_view(), raw@),
    {
        let level = match json_lookup_first(fields, "level", "severity", "lvl") {
            Some(l) => LogLevel::from_str(l.as_str()),
            None => LogLevel::from_str("unknown"),
        };
        let message = match json_lookup_first(fields, "msg", "message", "body") {
            Some(m) => m,
            None => raw.clone(),
        };
        let timestamp = match json_lookup_first(fields, "time", "timestamp", "ts") {
            Some(t) => match parse_rfc3339(t.as_str()) {
                Some(p) => Some(Timestamp::from_pair(p)),
                None => None,
            },
            None => None,
        };
        LogEntry { level, message, timestamp, raw, source: None }
    }

    /// The entry of a standard line, from the capture groups of `STANDARD_PATTERN`;
    /// `None` when there was no match.
    pub fn try_standard(&self, caps: &Option<Vec<Option<String>>>, raw: &String) -> (r: Option<
        LogEntry,
    >)
        ensures
            match standard_parts(caps.deep_view()) {
                Some(p) => r matches Some(e) && e@ == standard_entry(p, raw@),
                None => r is None,
            },
    {
        match caps {
            Some(g) => {
                if g.len() >= 4 && g[1].is_some() && g[2].is_some() && g[3].is_some() {
                    let ts = g[1].as_ref().unwrap();
                    let lv = g[2].as_ref().unwrap();
                    let msg = g[3].as_ref().unwrap();
                    let timestamp = Parser::parse_timestamp(ts.as_str());
                    Some(
                        LogEntry {
                            level: LogLevel::from_str(lv.as_str()),
                            message: msg.clone(),
                            timestamp,
                            raw: raw.clone(),
                            source: None,
                        },
                    )
                } else {
                    None
                }
            },
            None => None,
        }
    }

    /// The entry of any other line, from the capture groups of `LEVEL_PATTERN`.
    pub fn try_plain(&self, caps: &Option<Vec<Option<String>>>, raw: String) -> (r: LogEntry)
        ensures
            r@ == plain_entry(caps.deep_view(), raw@),
    {
        let level = match caps {
            Some(g) => if g.len() >= 2 && g[1].is_some() {
                LogLevel::from_str(g[1].as_ref().unwrap().as_str())
            } else {
                LogLevel::Unknown
            },
            None => LogLevel::Unknown,
        };
        LogEntry { level, message: raw.clone(), timestamp: None, raw, source: None }
    }

    /// Reads a timestamp: RFC 3339, else `DATETIME_FORMAT` as UTC.
    pub fn parse_timestamp(s: &str) -> (r: Option<Timestamp>)
        ensures
            r == timestamp_of(s@),
    {
        match parse_rfc3339(s) {
            Some(p) => Some(Timestamp::from_pair(p)),
            None => match parse_naive_datetime(s, DATETIME_FORMAT) {
                Some(p) => Some(Timestamp::from_pair(p)),
                None => None,
            },
        }
    }
}

} // verus!
