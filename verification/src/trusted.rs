//! Calls into std, chrono, regex and serde_json: small functions that make one call and
//! convert its arguments and result, each with a doc comment saying what its contract claims.

use vstd::prelude::*;
use std::fmt::Write;

verus! {

/// `String::from_iter` over characters: the string made of the characters of `cs`, in order.
#[verifier::external_body]
pub(crate) fn string_of(cs: &[char]) -> (r: String)
    ensures
        r@ == cs@,
{
    cs.iter().collect()
}


/// `std::str::from_utf8`, taken to an owned `String`: `Some` exactly when the bytes are valid
/// UTF-8, and then the string whose UTF-8 encoding they are.
#[verifier::external_body]
pub(crate) fn utf8_string(bytes: &[u8]) -> (r: Option<String>)
    ensures
        (r is Some) == vstd::utf8::valid_utf8(bytes@),
        r matches Some(s) ==> vstd::utf8::encode_utf8(s@) == bytes@,
{
    std::str::from_utf8(bytes).ok().map(|s| s.to_string())
}

/// What `str::to_uppercase` returns for a string: its Unicode upper-case mapping.
pub uninterp spec fn uppercase_of(s: Seq<char>) -> Seq<char>;

/// `str::to_uppercase`; the result is named `uppercase_of` of the argument.
#[verifier::external_body]
pub(crate) fn to_uppercase(s: &str) -> (r: String)
    ensures
        r@ == uppercase_of(s@),
{
    s.to_uppercase()
}

/// What a search of `text` with `regex::Regex::new(pattern)` and `Regex::captures` gives:
/// `None` when the pattern does not compile or does not match; otherwise the text of each
/// capture group of the leftmost match (group 0 first), `None` for a group that took no part.
pub uninterp spec fn regex_captures_of(pattern: Seq<char>, text: Seq<char>) -> Option<
    Seq<Option<Seq<char>>>,
>;

/// `regex::Regex::new` and `Regex::captures`; the result is named `regex_captures_of`.
#[verifier::external_body]
pub(crate) fn regex_captures(pattern: &str, text: &str) -> (r: Option<Vec<Option<String>>>)
    ensures
        r.deep_view() == regex_captures_of(pattern@, text@),
{
    let re = regex::Regex::new(pattern).ok()?;
    re.captures(text).map(|c| c.iter().map(|m| m.map(|m| m.as_str().to_string())).collect())
}

/// What `serde_json::from_str::<serde_json::Value>` makes of `raw`, reduced to what the
/// library reads: `None` when `raw` is not a JSON text; for an object, its members as
/// (key, string value or `None` when the value is not a JSON string); for any other
/// JSON value, no members.
pub uninterp spec fn json_fields_of(raw: Seq<char>) -> Option<Seq<(Seq<char>, Option<Seq<char>>)>>;

/// `serde_json::from_str` into a `serde_json::Value`, with the members of an object taken out
/// through `Value::as_str`; the result is named `json_fields_of`.
#[verifier::external_body]
pub(crate) fn json_string_fields(raw: &str) -> (r: Option<Vec<(String, Option<String>)>>)
    ensures
        r.deep_view() == json_fields_of(raw@),
{
    match serde_json::from_str::<serde_json::Value>(raw) {
        Ok(serde_json::Value::Object(m)) => Some(
            m.into_iter().map(|(k, v)| (k, v.as_str().map(|s| s.to_string()))).collect(),
        ),
        Ok(_) => Some(Vec::new()),
        Err(_) => None,
    }
}

/// What `chrono::DateTime::parse_from_rfc3339` gives for `s`, taken to UTC as
/// (`timestamp`, `timestamp_subsec_nanos`); `None` when `s` is not RFC 3339.
pub uninterp spec fn rfc3339_of(s: Seq<char>) -> Option<(i64, u32)>;

/// `chrono::DateTime::parse_from_rfc3339` and `with_timezone(&Utc)`; the result is named
/// `rfc3339_of`.
#[verifier::external_body]
pub(crate) fn parse_rfc3339(s: &str) -> (r: Option<(i64, u32)>)
    ensures
        r == rfc3339_of(s@),
{
    chrono::DateTime::parse_from_rfc3339(s).ok().map(|d| {
        let u = d.with_timezone(&chrono::Utc);
        (u.timestamp(), u.timestamp_subsec_nanos())
    })
}

/// What `chrono::NaiveDateTime::parse_from_str(s, fmt)` gives, read as UTC, as
/// (`timestamp`, `timestamp_subsec_nanos`); `None` when parsing fails.
pub uninterp spec fn naive_datetime_of(s: Seq<char>, fmt: Seq<char>) -> Option<(i64, u32)>;

/// `chrono::NaiveDateTime::parse_from_str` and `and_utc`; the result is named
/// `naive_datetime_of`.
#[verifier::external_body]
pub(crate) fn parse_naive_datetime(s: &str, fmt: &str) -> (r: Option<(i64, u32)>)
    ensures
        r == naive_datetime_of(s@, fmt@),
{
    chrono::NaiveDateTime::parse_from_str(s, fmt).ok().map(|d| {
        let u = d.and_utc();
        (u.timestamp(), u.timestamp_subsec_nanos())
    })
}


/// Whether `char::is_alphabetic` holds of `c` (the Unicode `Alphabetic` property).
pub uninterp spec fn alphabetic_of(c: char) -> bool;

/// `char::is_alphabetic`; the result is named `alphabetic_of`.
#[verifier::external_body]
pub(crate) fn is_alphabetic(c: char) -> (r: bool)
    ensures
        r == alphabetic_of(c),
{
    c.is_alphabetic()
}

/// What `chrono::NaiveDate::parse_from_str(s, fmt)` gives, as the Unix timestamp of that
/// day's midnight UTC; `None` when parsing fails.
pub uninterp spec fn naive_date_of(s: Seq<char>, fmt: Seq<char>) -> Option<i64>;

/// `chrono::NaiveDate::parse_from_str`, at `NaiveTime::MIN`, `and_utc`; the result is named
/// `naive_date_of`.
#[verifier::external_body]
pub(crate) fn parse_naive_date(s: &str, fmt: &str) -> (r: Option<i64>)
    ensures
        r == naive_date_of(s@, fmt@),
{
    chrono::NaiveDate::parse_from_str(s, fmt).ok().map(
        |d| d.and_time(chrono::NaiveTime::MIN).and_utc().timestamp(),
    )
}

/// The first second (Unix time) that a chrono `DateTime<Utc>` can hold: January 1 of the
/// year -262143 (`NaiveDate::MIN`), at midnight.
pub open spec fn chrono_min_secs() -> int {
    -8334601228800
}

/// The last second that a chrono `DateTime<Utc>` can hold: December 31 of the year 262142
/// (`NaiveDate::MAX`), 23:59:59.
pub open spec fn chrono_max_secs() -> int {
    8210266876799
}

/// `DateTime::from_timestamp(secs, nanos)` succeeds: the second is in chrono's range and the
/// nanoseconds are below one second, or below two within a leap second (the 59th second of
/// a minute).
pub open spec fn chrono_time_ok(secs: int, nanos: int) -> bool {
    &&& chrono_min_secs() <= secs <= chrono_max_secs()
    &&& (nanos < 1_000_000_000 || (nanos < 2_000_000_000 && secs % 60 == 59))
}

/// The largest number of seconds that `TimeDelta::try_seconds` accepts, either way.
pub open spec fn delta_max_secs() -> int {
    9223372036854775
}

/// What `DateTime::checked_sub_signed` of `TimeDelta::try_seconds(delta)` gives for the UTC
/// time (`secs`, `nanos`): `delta` seconds earlier, nanoseconds kept; out of a leap second
/// when the delta is not zero; `None` when an argument or the result is out of range.
pub open spec fn minus_seconds_of(secs: i64, nanos: u32, delta: i64) -> Option<(i64, u32)> {
    if !chrono_time_ok(secs as int, nanos as int) || delta < -delta_max_secs() || delta
        > delta_max_secs() {
        None
    } else {
        let s: int = if nanos < 1_000_000_000 || delta <= 0 {
            secs - delta
        } else {
            secs + 1 - delta
        };
        let n: int = if nanos < 1_000_000_000 || delta == 0 {
            nanos as int
        } else {
            nanos - 1_000_000_000
        };
        if chrono_min_secs() <= s <= chrono_max_secs() {
            Some((s as i64, n as u32))
        } else {
            None
        }
    }
}

/// `chrono::DateTime::from_timestamp`, `TimeDelta::try_seconds` and
/// `DateTime::checked_sub_signed`, as `minus_seconds_of` states.
#[verifier::external_body]
pub(crate) fn minus_seconds(secs: i64, nanos: u32, delta: i64) -> (r: Option<(i64, u32)>)
    ensures
        r == minus_seconds_of(secs, nanos, delta),
{
    let t = chrono::DateTime::from_timestamp(secs, nanos)?;
    let d = chrono::TimeDelta::try_seconds(delta)?;
    t.checked_sub_signed(d).map(|u| (u.timestamp(), u.timestamp_subsec_nanos()))
}

/// The current UTC time, read as `chrono::Utc::now` reads it but without its panics:
/// `std::time::SystemTime::now`, its `duration_since(UNIX_EPOCH)`, and
/// `chrono::DateTime::from_timestamp` of the whole seconds and the nanoseconds of the
/// fraction, as (`timestamp`, `timestamp_subsec_nanos`). `None` when the clock reads before
/// 1970 or beyond chrono's range. Its value is not stated (it is the clock); when it is
/// there, it is in chrono's range and not within a leap second, since a `Duration`'s
/// fraction is below one second.
#[verifier::external_body]
pub(crate) fn utc_now() -> (r: Option<(i64, u32)>)
    ensures
        r matches Some(p) ==> chrono_min_secs() <= p.0 <= chrono_max_secs() && p.1 < 1_000_000_000,
{
    let d = std::time::SystemTime::now().duration_since(std::time::UNIX_EPOCH).ok()?;
    let secs = i64::try_from(d.as_secs()).ok()?;
    let u = chrono::DateTime::from_timestamp(secs, d.subsec_nanos())?;
    Some((u.timestamp(), u.timestamp_subsec_nanos()))
}

/// What formatting the UTC time (`secs`, `nanos`) with `chrono::DateTime::format(fmt)`
/// writes; `None` when chrono cannot represent the time or the format is invalid.
pub uninterp spec fn formatted_of(secs: i64, nanos: u32, fmt: Seq<char>) -> Option<Seq<char>>;

/// `chrono::DateTime::from_timestamp` and `DateTime::format`, written into a `String`;
/// the result is named `formatted_of`.
#[verifier::external_body]
pub(crate) fn format_timestamp(secs: i64, nanos: u32, fmt: &str) -> (r: Option<String>)
    ensures
        r.deep_view() == formatted_of(secs, nanos, fmt@),
{
    let t = chrono::DateTime::from_timestamp(secs, nanos)?;
    let mut out = String::new();
    write!(out, "{}", t.format(fmt)).ok()?;
    Some(out)
}

/// What `regex::Regex::new(pattern)` reports: `None` when the pattern compiles, else the
/// text of its error.
pub uninterp spec fn regex_error_of(pattern: Seq<char>) -> Option<Seq<char>>;

/// `regex::Regex::new` and the error's `to_string`; the result is named `regex_error_of`.
#[verifier::external_body]
pub(crate) fn regex_error(pattern: &str) -> (r: Option<String>)
    ensures
        r.deep_view() == regex_error_of(pattern@),
{
    regex::Regex::new(pattern).err().map(|e| e.to_string())
}

/// Whether `regex::Regex::new(pattern)` compiles and `Regex::is_match` finds a match in `text`.
pub uninterp spec fn regex_is_match_of(pattern: Seq<char>, text: Seq<char>) -> bool;

/// `regex::Regex::new` and `Regex::is_match`; the result is named `regex_is_match_of`.
#[verifier::external_body]
pub(crate) fn regex_is_match(pattern: &str, text: &str) -> (r: bool)
    ensures
        r == regex_is_match_of(pattern@, text@),
{
    match regex::Regex::new(pattern) {
        Ok(re) => re.is_match(text),
        Err(_) => false,
    }
}


/// The order of `(u64, i64, u64, u64)` tuples that std's `Ord` for tuples defines:
/// lexicographic, component by component.
pub open spec fn key_le(a: (u64, i64, u64, u64), b: (u64, i64, u64, u64)) -> bool {
    a.0 < b.0 || (a.0 == b.0 && (a.1 < b.1 || (a.1 == b.1 && (a.2 < b.2 || (a.2 == b.2
        && a.3 <= b.3)))))
}

/// `slice::sort_unstable` on tuples of integers: the result holds the same items, as a
/// multiset, in ascending order.
#[verifier::external_body]
pub(crate) fn sort_keys(v: &mut Vec<(u64, i64, u64, u64)>)
    ensures
        final(v)@.to_multiset() == old(v)@.to_multiset(),
        forall|i: int, j: int|
            0 <= i < j < final(v)@.len() ==> key_le(#[trigger] final(v)@[i], #[trigger] final(v)@[j]),
{
    v.sort_unstable();
}


/// What `str::to_lowercase` returns for a string: its Unicode lower-case mapping.
pub uninterp spec fn lowercase_of(s: Seq<char>) -> Seq<char>;

/// `str::to_lowercase`; the result is named `lowercase_of` of the argument.
#[verifier::external_body]
pub(crate) fn to_lowercase(s: &str) -> (r: String)
    ensures
        r@ == lowercase_of(s@),
{
    s.to_lowercase()
}


/// Index of the last `c` in `s` before position `j` (`-1` when there is none).
pub open spec fn last_index_of(s: Seq<char>, c: char, j: int) -> int
    decreases j,
{
    if j <= 0 || j > s.len() {
        -1
    } else if s[j - 1] == c {
        j - 1
    } else {
        last_index_of(s, c, j - 1)
    }
}

/// The file name of a path split at '/': its last component, skipping empty and "."
/// components; none when there is no component left or the last one is "..".
pub open spec fn slash_file_name(p: Seq<char>) -> Option<Seq<char>>
    decreases p.len(),
{
    let i = last_index_of(p, '/', p.len() as int);
    let seg = p.subrange(i + 1, p.len() as int);
    if seg.len() == 0 || seg == "."@ {
        if 0 <= i < p.len() {
            slash_file_name(p.subrange(0, i))
        } else {
            None
        }
    } else if seg == ".."@ {
        None
    } else {
        Some(seg)
    }
}

/// The stem of a file name: the whole name when it has no '.' after its first character,
/// else the part before its last '.'.
pub open spec fn stem_of_name(n: Seq<char>) -> Seq<char> {
    let k = last_index_of(n, '.', n.len() as int);
    if k <= 0 {
        n
    } else {
        n.subrange(0, k)
    }
}

/// The file stem of a path split at '/'.
pub open spec fn slash_stem(p: Seq<char>) -> Option<Seq<char>> {
    match slash_file_name(p) {
        Some(n) => Some(stem_of_name(n)),
        None => None,
    }
}

/// A path that every platform splits the same way, at '/' alone: it holds no backslash and
/// no ':', and does not start with two slashes (which could open a network prefix).
pub open spec fn plain_path(p: Seq<char>) -> bool {
    &&& !p.contains('\\')
    &&& !p.contains(':')
    &&& !(p.len() >= 2 && p[0] == '/' && p[1] == '/')
}

/// `Path::new`, `Path::file_stem` and `OsStr::to_str`. The documentation of `Path` says
/// that components are split at '/' (and on Windows also at a backslash, after a prefix such as
/// "C:"), that repeated separators, trailing separators and "." components after the first
/// are ignored, that the file name is the last component unless that is "..", and how
/// the stem is cut from it. So a plain path gives `slash_stem` of it on every platform, and
/// the stem of a path without a backslash holds no '/' ('/' separates components everywhere
/// but in Windows verbatim paths, which begin with backslashes). Of other paths nothing more
/// is stated: they split differently on different platforms.
#[verifier::external_body]
pub(crate) fn file_stem(path: &str) -> (r: Option<String>)
    ensures
        plain_path(path@) ==> r.deep_view() == slash_stem(path@),
        !path@.contains('\\') ==> (r matches Some(s) ==> !s@.contains('/')),
{
    std::path::Path::new(path).file_stem().and_then(|s| s.to_str()).map(|s| s.to_string())
}

/// `n / d` rounded toward zero.
pub open spec fn quot_toward_zero(n: int, d: int) -> int {
    if n >= 0 {
        n / d
    } else {
        -((-n) / d)
    }
}

/// What `(end - start).num_seconds()` gives for the chrono UTC times (`s_secs`, `s_nanos`) and
/// (`e_secs`, `e_nanos`): `None` when chrono cannot hold either time; outside leap seconds,
/// the whole seconds between them, rounded toward zero. Within a leap second chrono counts
/// by its own rules, which this name stands for.
pub uninterp spec fn span_seconds_of(s_secs: i64, s_nanos: u32, e_secs: i64, e_nanos: u32) -> Option<
    i64,
>;

/// `chrono::DateTime::from_timestamp` for both times, their difference and
/// `TimeDelta::num_seconds`; the result is named `span_seconds_of`, and stated outside leap
/// seconds. Chrono's whole range is shorter than 2^44 seconds, which bounds the result.
#[verifier::external_body]
pub(crate) fn span_seconds(s_secs: i64, s_nanos: u32, e_secs: i64, e_nanos: u32) -> (r: Option<i64>)
    ensures
        r == span_seconds_of(s_secs, s_nanos, e_secs, e_nanos),
        (r is None) == !(chrono_time_ok(s_secs as int, s_nanos as int) && chrono_time_ok(
            e_secs as int,
            e_nanos as int,
        )),
        r is Some ==> -17592186044416 < r->0 < 17592186044416,
        s_nanos < 1_000_000_000 && e_nanos < 1_000_000_000 && r is Some ==> r->0 == quot_toward_zero(
            (e_secs - s_secs) * 1_000_000_000 + (e_nanos - s_nanos),
            1_000_000_000,
        ),
{
    let start = chrono::DateTime::from_timestamp(s_secs, s_nanos)?;
    let end = chrono::DateTime::from_timestamp(e_secs, e_nanos)?;
    Some((end - start).num_seconds())
}

} // verus!
