//! One display line per entry: timestamp, level and message, with matches of the
//! search pattern marked.

use vstd::prelude::*;
use crate::parser::{LogEntry, EntryView, LogLevel, DATETIME_FORMAT};
use crate::style::{
    Color, Style, Styled, StyledView, styled_views, plain, dim, fg, style_plain, style_dim, style_fg,
    styled,
};
use crate::text::{chars_eq, substring, sub_chars};
use crate::text::chars_of;
use crate::trusted::{string_of, to_lowercase, lowercase_of, format_timestamp, formatted_of};
use crate::correlator::{format_level, level_label};

verus! {

/// The lower-case form of one character, as `str::to_lowercase` gives it for that
/// character alone.
pub open spec fn lower_char(c: char) -> Seq<char> {
    lowercase_of(seq![c])
}

/// `pat` occurs in `text` at `i`, character by character, ignoring case.
pub open spec fn matches_at(text: Seq<char>, pat: Seq<char>, i: int) -> bool {
    &&& 0 <= i
    &&& i + pat.len() <= text.len()
    &&& forall|j: int| 0 <= j < pat.len() ==> lower_char(#[trigger] text[i + j]) == lower_char(pat[j])
}

/// First position at or after `i` where `pat` occurs in `text`, ignoring case.
pub open spec fn first_match(text: Seq<char>, pat: Seq<char>, i: int) -> Option<int>
    decreases text.len() + 1 - i,
{
    if i < 0 || i + pat.len() > text.len() {
        None
    } else if matches_at(text, pat, i) {
        Some(i)
    } else {
        first_match(text, pat, i + 1)
    }
}

/// First position at or after `i` where `needle` occurs in `hay`.
pub open spec fn find_in(hay: Seq<char>, needle: Seq<char>, i: int) -> Option<int>
    decreases hay.len() + 1 - i,
{
    if i < 0 || i + needle.len() > hay.len() {
        None
    } else if hay.subrange(i, i + needle.len()) == needle {
        Some(i)
    } else {
        find_in(hay, needle, i + 1)
    }
}

/// The lower-case forms of `rest` and `pat` line up with them, character for character
/// (no character lowers to more than one).
pub open spec fn aligned(rest: Seq<char>, pat: Seq<char>) -> bool {
    lowercase_of(rest).len() == rest.len() && lowercase_of(pat).len() == pat.len()
}

/// Where the next match of `pat` starts in `text` at or after `from`: where the lower-case
/// form of the rest of the text holds that of the pattern, when the two line up with the
/// text; else where the pattern matches character by character, ignoring case.
pub open spec fn next_match(text: Seq<char>, pat: Seq<char>, from: int) -> Option<int> {
    let rest = text.subrange(from, text.len() as int);
    if aligned(rest, pat) {
        match find_in(lowercase_of(rest), lowercase_of(pat), 0) {
            Some(k) => Some(from + k),
            None => None,
        }
    } else {
        first_match(text, pat, from)
    }
}

/// The pieces of `text` from position `from` on, split around each occurrence of `pat`
/// (ignoring case), the occurrences marked `true`.
pub open spec fn highlight_from(text: Seq<char>, pat: Seq<char>, from: int) -> Seq<(Seq<char>, bool)>
    decreases text.len() - from,
{
    if pat.len() == 0 || from < 0 || from > text.len() {
        seq![(text.subrange(from, text.len() as int), false)]
    } else {
        match next_match(text, pat, from) {
            Some(p) => if from <= p && p + pat.len() <= text.len() {
                seq![(text.subrange(from, p), false), (text.subrange(p, p + pat.len()), true)]
                    + highlight_from(text, pat, p + pat.len())
            } else {
                seq![(text.subrange(from, text.len() as int), false)]
            },
            None => seq![(text.subrange(from, text.len() as int), false)],
        }
    }
}

/// `text` split around each case-insensitive occurrence of `pat`; an empty pattern marks
/// nothing.
pub open spec fn highlighted(text: Seq<char>, pat: Seq<char>) -> Seq<(Seq<char>, bool)> {
    if pat.len() == 0 {
        seq![(text, false)]
    } else {
        highlight_from(text, pat, 0)
    }
}

/// The lower-case form of one character.
fn lower_of_char(c: char) -> (r: Vec<char>)
    ensures
        r@ == lower_char(c),
{
    let v: Vec<char> = vec![c];
    assert(v@ =~= seq![c]);
    let s = string_of(v.as_slice());
    let l = to_lowercase(s.as_str());
    chars_of(l.as_str())
}

/// The lower-case forms of the characters of `s`.
fn lower_chars(s: &[char]) -> (r: Vec<Vec<char>>)
    ensures
        r@.len() == s@.len(),
        forall|k: int| 0 <= k < s@.len() ==> (#[trigger] r@[k])@ == lower_char(s@[k]),
{
    let mut out: Vec<Vec<char>> = Vec::new();
    let mut k: usize = 0;
    while k < s.len()
        invariant
            k <= s@.len(),
            out@.len() == k,
            forall|j: int| 0 <= j < k ==> (#[trigger] out@[j])@ == lower_char(s@[j]),
        decreases s@.len() - k,
    {
        out.push(lower_of_char(s[k]));
        k = k + 1;
    }
    out
}

/// Whether `pat` occurs in `text` at `i`, given both in lower-case forms.
fn matches_at_exec(
    lt: &Vec<Vec<char>>,
    lp: &Vec<Vec<char>>,
    i: usize,
    Ghost(text): Ghost<Seq<char>>,
    Ghost(pat): Ghost<Seq<char>>,
) -> (r: bool)
    requires
        lt@.len() == text.len(),
        lp@.len() == pat.len(),
        forall|k: int| 0 <= k < text.len() ==> (#[trigger] lt@[k])@ == lower_char(text[k]),
        forall|k: int| 0 <= k < pat.len() ==> (#[trigger] lp@[k])@ == lower_char(pat[k]),
        i + pat.len() <= text.len(),
    ensures
        r == matches_at(text, pat, i as int),
{
    let m = lp.len();
    let tl = lt.len();
    let mut j: usize = 0;
    while j < m
        invariant
            tl == text.len(),
            j <= m,
            m == pat.len(),
            i + m <= text.len(),
            lt@.len() == text.len(),
            lp@.len() == pat.len(),
            forall|k: int| 0 <= k < text.len() ==> (#[trigger] lt@[k])@ == lower_char(text[k]),
            forall|k: int| 0 <= k < pat.len() ==> (#[trigger] lp@[k])@ == lower_char(pat[k]),
            forall|k: int| 0 <= k < j ==> lower_char(#[trigger] text[i + k]) == lower_char(pat[k]),
        decreases m - j,
    {
        if !chars_eq(lt[i + j].as_slice(), lp[j].as_slice()) {
            assert(lt@[i + j]@ == lower_char(text[i + j]));
            assert(!(lower_char(text[i as int + j as int]) == lower_char(pat[j as int])));
            return false;
        }
        assert(lt@[i + j]@ == lower_char(text[i + j]));
        j = j + 1;
    }
    true
}

/// First position at which `needle` occurs in `hay`.
fn find_chars(hay: &[char], needle: &[char]) -> (r: Option<usize>)
    ensures
        match r {
            Some(k) => find_in(hay@, needle@, 0) == Some(k as int) && k + needle@.len() <= hay@.len(),
            None => find_in(hay@, needle@, 0) is None,
        },
{
    let n = hay.len();
    let m = needle.len();
    if m > n {
        return None;
    }
    if m == 0 {
        assert(hay@.subrange(0, 0) =~= needle@);
        return Some(0);
    }
    let mut i: usize = 0;
    while i <= n - m
        invariant
            n == hay@.len(),
            m == needle@.len(),
            0 < m <= n,
            i <= n - m + 1,
            find_in(hay@, needle@, 0) == find_in(hay@, needle@, i as int),
        decreases n - m + 1 - i,
    {
        let w = sub_chars(hay, i, i + m);
        if chars_eq(w.as_slice(), needle) {
            return Some(i);
        }
        i = i + 1;
    }
    None
}

/// Where `pat` next matches `text` at or after `start`, character by character.
fn scan_per_char(
    lt: &Vec<Vec<char>>,
    lp: &Vec<Vec<char>>,
    start: usize,
    Ghost(t): Ghost<Seq<char>>,
    Ghost(p): Ghost<Seq<char>>,
) -> (r: Option<usize>)
    requires
        start <= t.len(),
        lt@.len() == t.len(),
        lp@.len() == p.len(),
        forall|k: int| 0 <= k < t.len() ==> (#[trigger] lt@[k])@ == lower_char(t[k]),
        forall|k: int| 0 <= k < p.len() ==> (#[trigger] lp@[k])@ == lower_char(p[k]),
    ensures
        match r {
            Some(i) => first_match(t, p, start as int) == Some(i as int),
            None => first_match(t, p, start as int) is None,
        },
{
    let n = lt.len();
    let m = lp.len();
    let mut i: usize = start;
    while m <= n && i <= n - m
        invariant
            start <= i <= n,
            n == t.len(),
            m == p.len(),
            lt@.len() == t.len(),
            lp@.len() == p.len(),
            forall|k: int| 0 <= k < t.len() ==> (#[trigger] lt@[k])@ == lower_char(t[k]),
            forall|k: int| 0 <= k < p.len() ==> (#[trigger] lp@[k])@ == lower_char(p[k]),
            first_match(t, p, start as int) == first_match(t, p, i as int),
        decreases n - i,
    {
        if matches_at_exec(lt, lp, i, Ghost(t), Ghost(p)) {
            return Some(i);
        }
        i = i + 1;
    }
    None
}

/// Where `pat` next matches `text` at or after `start`, as `next_match` says.
fn next_match_exec(
    tc: &Vec<char>,
    lpc: &Vec<char>,
    lt: &Vec<Vec<char>>,
    lp: &Vec<Vec<char>>,
    start: usize,
    Ghost(t): Ghost<Seq<char>>,
    Ghost(p): Ghost<Seq<char>>,
) -> (r: Option<usize>)
    requires
        tc@ == t,
        start <= t.len(),
        lpc@ == lowercase_of(p),
        lt@.len() == t.len(),
        lp@.len() == p.len(),
        forall|k: int| 0 <= k < t.len() ==> (#[trigger] lt@[k])@ == lower_char(t[k]),
        forall|k: int| 0 <= k < p.len() ==> (#[trigger] lp@[k])@ == lower_char(p[k]),
    ensures
        match r {
            Some(i) => next_match(t, p, start as int) == Some(i as int),
            None => next_match(t, p, start as int) is None,
        },
{
    let n = tc.len();
    let rest = substring(tc.as_slice(), start, n);
    let lrs = to_lowercase(rest.as_str());
    let lr = chars_of(lrs.as_str());
    if lr.len() == n - start && lpc.len() == lp.len() {
        match find_chars(lr.as_slice(), lpc.as_slice()) {
            Some(k) => Some(start + k),
            None => None,
        }
    } else {
        scan_per_char(lt, lp, start, Ghost(t), Ghost(p))
    }
}

/// Splits `text` around each case-insensitive occurrence of `pat`; `true` marks a match. An
/// empty pattern marks nothing.
pub fn highlight(text: &str, pat: &str) -> (r: Vec<(String, bool)>)
    ensures
        r.deep_view() == highlighted(text@, pat@),
{
    let tc = chars_of(text);
    let pc = chars_of(pat);
    let n = tc.len();
    let m = pc.len();
    let mut out: Vec<(String, bool)> = Vec::new();
    if m == 0 {
        out.push((string_of(tc.as_slice()), false));
        assert(out.deep_view() =~= highlighted(text@, pat@));
        return out;
    }
    let lt = lower_chars(tc.as_slice());
    let lp = lower_chars(pc.as_slice());
    let lps = to_lowercase(pat);
    let lpc = chars_of(lps.as_str());
    let ghost t = tc@;
    let ghost p = pc@;
    let mut start: usize = 0;
    loop
        invariant_except_break
            highlighted(t, p) == out.deep_view() + highlight_from(t, p, start as int),
        invariant
            start <= n,
            n == t.len(),
            m == p.len(),
            m > 0,
            t == text@,
            p == pat@,
            tc@ == t,
            lt@.len() == t.len(),
            lp@.len() == p.len(),
            lpc@ == lowercase_of(p),
            forall|k: int| 0 <= k < t.len() ==> (#[trigger] lt@[k])@ == lower_char(t[k]),
            forall|k: int| 0 <= k < p.len() ==> (#[trigger] lp@[k])@ == lower_char(p[k]),
        ensures
            highlighted(t, p) == out.deep_view(),
        decreases n - start,
    {
        let next = next_match_exec(&tc, &lpc, &lt, &lp, start, Ghost(t), Ghost(p));
        let ghost out0 = out.deep_view();
        let (found, i) = match next {
            Some(i) => (i >= start && i <= n && n - i >= m, i),
            None => (false, 0),
        };
        if found {
            let before = substring(tc.as_slice(), start, i);
            let matched = substring(tc.as_slice(), i, i + m);
            out.push((before, false));
            out.push((matched, true));
            proof {
                assert(out.deep_view() =~= out0 + seq![
                    (t.subrange(start as int, i as int), false),
                    (t.subrange(i as int, i + m), true),
                ]);
            }
            start = i + m;
        } else {
            let rest = substring(tc.as_slice(), start, n);
            out.push((rest, false));
            assert(out.deep_view() =~= out0 + seq![(t.subrange(start as int, n as int), false)]);
            break;
        }
    }
    out
}

/// The style of a message of a level.
pub open spec fn message_style(l: LogLevel) -> Style {
    match l {
        LogLevel::Error | LogLevel::Fatal => fg(Color::Red),
        LogLevel::Warn => fg(Color::Yellow),
        LogLevel::Debug | LogLevel::Trace => dim(),
        _ => plain(),
    }
}

/// The style of a match of the search pattern.
pub open spec fn mark() -> Style {
    Style { fg: Color::Black, bg: Color::Yellow, bold: false, dimmed: false }
}

/// Styles the pieces of a message: matches marked, the rest in the message's own style.
pub open spec fn marked(segs: Seq<(Seq<char>, bool)>, base: Style) -> Seq<StyledView> {
    Seq::new(
        segs.len(),
        |k: int|
            StyledView {
                text: segs[k].0,
                style: if segs[k].1 {
                    mark()
                } else {
                    base
                },
            },
    )
}

/// The styled pieces of a message.
pub open spec fn message_pieces(grep: Option<Seq<char>>, msg: Seq<char>, l: LogLevel) -> Seq<
    StyledView,
> {
    match grep {
        None => seq![StyledView { text: msg, style: message_style(l) }],
        Some(p) => marked(highlighted(msg, p), message_style(l)),
    }
}

/// The text shown in place of a missing timestamp.
pub open spec fn blank_time() -> Seq<char> {
    "                   "@
}

/// A full display line for an entry.
pub open spec fn display_line(grep: Option<Seq<char>>, e: EntryView) -> Seq<StyledView> {
    let ts = match e.timestamp {
        Some(t) => match formatted_of(t.secs, t.nanos, DATETIME_FORMAT@) {
            Some(s) => s,
            None => blank_time(),
        },
        None => blank_time(),
    };
    let lv = level_label(e.level);
    seq![
        StyledView { text: ts, style: dim() },
        StyledView { text: "  "@, style: plain() },
        StyledView { text: lv.0, style: lv.1 },
        StyledView { text: "  "@, style: plain() },
    ] + message_pieces(grep, e.message, e.level)
}

/// Formats entries for display, marking matches of the search pattern.
pub struct Formatter {
    pub grep: Option<String>,
}

impl Formatter {
    pub fn new(grep: Option<String>) -> (r: Formatter)
        ensures
            r.grep.deep_view() == grep.deep_view(),
    {
        Formatter { grep }
    }

    /// The display line of an entry.
    pub fn format(&self, entry: &LogEntry) -> (r: Vec<Styled>)
        ensures
            styled_views(r@) == display_line(self.grep.deep_view(), entry@),
    {
        let ts = match entry.timestamp {
            Some(t) => match format_timestamp(t.secs, t.nanos, DATETIME_FORMAT) {
                Some(s) => s,
                None => string_of(chars_of("                   ").as_slice()),
            },
            None => string_of(chars_of("                   ").as_slice()),
        };
        let mut out: Vec<Styled> = Vec::new();
        out.push(styled(ts, style_dim()));
        out.push(styled(string_of(chars_of("  ").as_slice()), style_plain()));
        out.push(self.format_level(&entry.level));
        out.push(styled(string_of(chars_of("  ").as_slice()), style_plain()));
        let ghost head = styled_views(out@);
        let pieces = self.format_message(entry.message.as_str(), &entry.level);
        let mut i: usize = 0;
        while i < pieces.len()
            invariant
                i <= pieces@.len(),
                head.len() == 4,
                styled_views(out@) =~= head + styled_views(pieces@).subrange(0, i as int),
            decreases pieces@.len() - i,
        {
            let p = &pieces[i];
            let ghost before = styled_views(out@);
            let item = styled(string_of(chars_of(p.text.as_str()).as_slice()), p.style);
            out.push(item);
            assert(styled_views(out@) =~= before.push(item@));
            assert(styled_views(pieces@).subrange(0, i + 1) =~= styled_views(pieces@).subrange(
                0,
                i as int,
            ).push(pieces@[i as int]@));
            i = i + 1;
        }
        proof {
            assert(styled_views(pieces@).subrange(0, pieces@.len() as int) =~= styled_views(pieces@));
        }
        out
    }

    /// The label of a level, in its color.
    pub fn format_level(&self, level: &LogLevel) -> (r: Styled)
        ensures
            r@.text == level_label(*level).0,
            r@.style == level_label(*level).1,
    {
        format_level(level)
    }

    /// The message in its level's color, with matches of the search pattern marked.
    pub fn format_message(&self, msg: &str, level: &LogLevel) -> (r: Vec<Styled>)
        ensures
            styled_views(r@) == message_pieces(self.grep.deep_view(), msg@, *level),
    {
        let base = match level {
            LogLevel::Error | LogLevel::Fatal => style_fg(Color::Red),
            LogLevel::Warn => style_fg(Color::Yellow),
            LogLevel::Debug | LogLevel::Trace => style_dim(),
            _ => style_plain(),
        };
        let mut out: Vec<Styled> = Vec::new();
        match &self.grep {
            None => {
                out.push(styled(string_of(chars_of(msg).as_slice()), base));
                assert(styled_views(out@) =~= message_pieces(self.grep.deep_view(), msg@, *level));
            },
            Some(pat) => {
                let segs = highlight(msg, pat.as_str());
                let ghost sv = segs.deep_view();
                let mut k: usize = 0;
                while k < segs.len()
                    invariant
                        k <= segs@.len(),
                        sv == segs.deep_view(),
                        out@.len() == k,
                        forall|j: int| 0 <= j < k ==> #[trigger] styled_views(out@)[j] == marked(sv, base)[j],
                    decreases segs@.len() - k,
                {
                    let (t, is_match) = (&segs[k].0, segs[k].1);
                    let style = if is_match {
                        Style { fg: Color::Black, bg: Color::Yellow, bold: false, dimmed: false }
                    } else {
                        base
                    };
                    proof {
                        assert(sv[k as int].1 == is_match);
                    }
                    let ghost before = styled_views(out@);
                    let item = styled(string_of(chars_of(t.as_str()).as_slice()), style);
                    out.push(item);
                    assert(styled_views(out@) =~= before.push(item@));
                    k = k + 1;
                }
                assert(styled_views(out@) =~= marked(sv, base));
            },
        }
        out
    }
}

} // verus!
