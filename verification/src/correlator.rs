//! Several log files merged into one timeline, each line tagged with its service.

use vstd::prelude::*;
use crate::filter::{Filter, FilterView, admits};
use crate::parser::{LogEntry, EntryView, LogLevel, Parser, parsed};
use crate::ranking::{SortKey, sorted_order_of, sort_indexed};
use crate::style::{Color, Style, Styled, StyledView, dim, fg, fg_bold, styled, style_dim, style_fg, style_fg_bold};
use crate::text::chars_of;
use crate::trusted::{string_of, file_stem, format_timestamp, formatted_of, plain_path, slash_stem};
use crate::formatter::message_style;
use crate::timestamp::Timestamp;
use vstd::utf8::{encode_utf8, encode_scalar};

verus! {

/// The label shown for a level and its style.
pub open spec fn level_label(l: LogLevel) -> (Seq<char>, Style) {
    match l {
        LogLevel::Trace => (" TRACE"@, dim()),
        LogLevel::Debug => (" DEBUG"@, fg(Color::Cyan)),
        LogLevel::Info => ("  INFO"@, fg(Color::Green)),
        LogLevel::Warn => ("  WARN"@, fg_bold(Color::Yellow)),
        LogLevel::Error => (" ERROR"@, fg_bold(Color::Red)),
        LogLevel::Fatal => (" FATAL"@, Style { fg: Color::White, bg: Color::Red, bold: true, dimmed: false }),
        LogLevel::Unknown => ("   ???"@, dim()),
    }
}

/// The label of a level, in its color.
pub fn format_level(level: &LogLevel) -> (r: Styled)
    ensures
        r@.text == level_label(*level).0,
        r@.style == level_label(*level).1,
{
    let (t, s) = match level {
        LogLevel::Trace => (" TRACE", style_dim()),
        LogLevel::Debug => (" DEBUG", style_fg(Color::Cyan)),
        LogLevel::Info => ("  INFO", style_fg(Color::Green)),
        LogLevel::Warn => ("  WARN", style_fg_bold(Color::Yellow)),
        LogLevel::Error => (" ERROR", style_fg_bold(Color::Red)),
        LogLevel::Fatal => (" FATAL", Style { fg: Color::White, bg: Color::Red, bold: true, dimmed: false }),
        LogLevel::Unknown => ("   ???", style_dim()),
    };
    styled(string_of(chars_of(t).as_slice()), s)
}

/// The colors given to services, in turn.
pub open spec fn service_color(i: int) -> Color {
    let k = i % 5;
    if k == 0 {
        Color::Cyan
    } else if k == 1 {
        Color::Magenta
    } else if k == 2 {
        Color::Yellow
    } else if k == 3 {
        Color::Green
    } else {
        Color::Blue
    }
}

/// The color of the service with the given color index.
pub fn color_of(index: usize) -> (r: Color)
    ensures
        r == service_color(index as int),
{
    match index % 5 {
        0 => Color::Cyan,
        1 => Color::Magenta,
        2 => Color::Yellow,
        3 => Color::Green,
        _ => Color::Blue,
    }
}

/// The service name given by a file's stem: the stem, or "unknown" when the path has none.
pub open spec fn service_of_stem(stem: Option<Seq<char>>) -> Seq<char> {
    match stem {
        Some(s) => s,
        None => "unknown"@,
    }
}

/// The service name of a file whose path has the given stem (its name without directory
/// and extension).
pub fn service_from_stem(stem: Option<String>) -> (r: String)
    ensures
        r@ == service_of_stem(stem.deep_view()),
{
    match stem {
        Some(s) => s,
        None => string_of(chars_of("unknown").as_slice()),
    }
}

/// The short service name of a file path: its file stem, so "logs/api-service.log" gives
/// "api-service", or "unknown" when the path names no file. The stem is read by the
/// platform's path rules, which agree on plain paths; the name of a path without a
/// backslash holds no '/'.
pub fn service_name(path: &str) -> (r: String)
    ensures
        plain_path(path@) ==> r@ == service_of_stem(slash_stem(path@)),
        !path@.contains('\\') ==> !r@.contains('/'),
{
    let stem = file_stem(path);
    let r = service_from_stem(stem);
    proof {
        reveal_strlit("unknown");
        if stem is None && r@.contains('/') {
            let i = choose|i: int| 0 <= i < r@.len() && r@[i] == '/';
            assert("unknown"@[i] != '/');
        }
    }
    r
}

/// Number of bytes of a character in UTF-8.
pub open spec fn char_width(c: char) -> nat {
    encode_scalar(c as u32).len()
}

/// The longest prefix of `s` whose UTF-8 encoding takes at most `n` bytes.
pub open spec fn byte_prefix(s: Seq<char>, n: int) -> Seq<char>
    decreases s.len(),
{
    if s.len() == 0 {
        s
    } else if char_width(s[0]) <= n {
        seq![s[0]] + byte_prefix(s.drop_first(), n - char_width(s[0]))
    } else {
        seq![]
    }
}

/// Cutting a name after its eighth byte leaves whole characters.
pub open spec fn tag_cut_ok(s: Seq<char>) -> bool {
    let n = encode_utf8(s).len();
    encode_utf8(byte_prefix(s, 8)).len() == if n < 8 { n } else { 8 }
}

/// The service tag of a timeline line: the name's first eight bytes, padded with spaces to
/// eight characters, in brackets.
pub open spec fn tag_text(s: Seq<char>) -> Seq<char> {
    let p = byte_prefix(s, 8);
    "["@ + p + Seq::new((8 - p.len()) as nat, |i: int| ' ') + "]"@
}

proof fn lemma_byte_prefix_short(s: Seq<char>, n: int)
    ensures
        byte_prefix(s, n).len() <= s.len(),
        n >= 0 ==> byte_prefix(s, n).len() <= n,
    decreases s.len(),
{
    if s.len() > 0 && char_width(s[0]) <= n {
        lemma_byte_prefix_short(s.drop_first(), n - char_width(s[0]));
    }
}

/// Number of bytes of a character in UTF-8.
fn utf8_width(c: char) -> (r: usize)
    ensures
        r == char_width(c),
        1 <= r <= 4,
{
    let v = c as u32;
    if v < 0x80 {
        1
    } else if v < 0x800 {
        2
    } else if v < 0x10000 {
        3
    } else {
        4
    }
}

/// The bracketed tag that names a line's service on the timeline.
pub fn service_tag(service: &str) -> (r: String)
    requires
        tag_cut_ok(service@),
    ensures
        r@ == tag_text(service@),
{
    let cs = chars_of(service);
    let ghost s = service@;
    let mut out: Vec<char> = Vec::new();
    out.push('[');
    let mut used: usize = 0;
    let mut i: usize = 0;
    let n = cs.len();
    assert(s.skip(0) =~= s);
    assert(s.take(0) + byte_prefix(s, 8) =~= byte_prefix(s, 8));
    assert(out@ =~= seq!['['] + s.take(0));
    while i < n
        invariant_except_break
            i <= n,
            n == s.len(),
            cs@ == s,
            used <= 8,
            out@ == seq!['['] + s.take(i as int),
            byte_prefix(s, 8) == s.take(i as int) + byte_prefix(s.skip(i as int), 8 - used),
        ensures
            i <= n,
            out@ == seq!['['] + s.take(i as int),
            byte_prefix(s, 8) == s.take(i as int),
        decreases n - i,
    {
        let w = utf8_width(cs[i]);
        let ghost rest = s.skip(i as int);
        assert(rest[0] == s[i as int]);
        assert(rest.drop_first() =~= s.skip(i + 1));
        if used + w > 8 {
            assert(byte_prefix(rest, 8 - used) =~= Seq::<char>::empty());
            assert(s.take(i as int) + Seq::<char>::empty() =~= s.take(i as int));
            break;
        }
        out.push(cs[i]);
        used = used + w;
        assert(s.take(i + 1) =~= s.take(i as int) + seq![s[i as int]]);
        assert(s.take(i as int) + (seq![s[i as int]] + byte_prefix(s.skip(i + 1), 8 - used))
            =~= s.take(i + 1) + byte_prefix(s.skip(i + 1), 8 - used));
        i = i + 1;
    }
    proof {
        if i == n {
            assert(s.skip(n as int) =~= Seq::<char>::empty());
            assert(s.take(n as int) + Seq::<char>::empty() =~= s.take(n as int));
        }
        lemma_byte_prefix_short(s, 8);
    }
    let ghost p = s.take(i as int);
    let mut k: usize = i;
    while k < 8
        invariant
            i <= k <= 8,
            i <= 8,
            out@ == seq!['['] + p + Seq::new((k - i) as nat, |j: int| ' '),
        decreases 8 - k,
    {
        out.push(' ');
        assert(Seq::new((k + 1 - i) as nat, |j: int| ' ') =~= Seq::new((k - i) as nat, |j: int| ' ').push(' '));
        k = k + 1;
    }
    out.push(']');
    proof {
        assert(out@ =~= "["@ + p + Seq::new((8 - p.len()) as nat, |j: int| ' ') + "]"@) by {
            reveal_strlit("[");
            reveal_strlit("]");
        }
    }
    string_of(out.as_slice())
}

/// An entry tagged with the color index of its service.
pub struct Tagged {
    pub entry: LogEntry,
    pub color_index: usize,
}

pub struct TaggedView {
    pub entry: EntryView,
    pub color_index: usize,
}

impl View for Tagged {
    type V = TaggedView;

    open spec fn view(&self) -> TaggedView {
        TaggedView { entry: self.entry@, color_index: self.color_index }
    }
}

pub open spec fn tagged_views(v: Seq<Tagged>) -> Seq<TaggedView> {
    v.map_values(|t: Tagged| t@)
}

/// The entry of a line of a service's file.
pub open spec fn service_entry(line: Seq<char>, service: Seq<char>) -> EntryView {
    let e = parsed(line);
    EntryView { source: Some(service), ..e }
}

/// The tagged entries of one file's lines that the filter lets through, in order.
pub open spec fn tag_lines(lines: Seq<Seq<char>>, service: Seq<char>, i: int, f: FilterView) -> Seq<
    TaggedView,
>
    decreases lines.len(),
{
    if lines.len() == 0 {
        seq![]
    } else {
        let prev = tag_lines(lines.drop_last(), service, i, f);
        let e = service_entry(lines.last(), service);
        if admits(f, e) {
            prev.push(TaggedView { entry: e, color_index: (i % 5) as usize })
        } else {
            prev
        }
    }
}

/// The tagged entries of the first `k` files that the filter lets through, file by file;
/// `services[i]` names the service of file `i`.
pub open spec fn tag_files(
    services: Seq<Seq<char>>,
    contents: Seq<Seq<Seq<char>>>,
    k: int,
    f: FilterView,
) -> Seq<TaggedView>
    decreases k,
{
    if k <= 0 {
        seq![]
    } else {
        tag_files(services, contents, k - 1, f) + tag_lines(contents[k - 1], services[k - 1], k - 1, f)
    }
}

/// Where an entry goes on the timeline: by time, entries without one last, and by position
/// among equals.
pub open spec fn time_key(e: EntryView, i: int) -> SortKey {
    match e.timestamp {
        Some(t) => (0u64, t.secs, t.nanos as u64, i as u64),
        None => (1u64, 0i64, 0u64, i as u64),
    }
}

pub open spec fn time_keys(s: Seq<TaggedView>) -> Seq<SortKey> {
    Seq::new(s.len(), |i: int| time_key(s[i].entry, i))
}

/// `r` is `s` in time order, entries without a timestamp last, equal ones as in `s`.
pub open spec fn timeline_of(r: Seq<TaggedView>, s: Seq<TaggedView>) -> bool {
    exists|order: Seq<SortKey>|
        #![trigger sorted_order_of(order, time_keys(s))]
        sorted_order_of(order, time_keys(s)) && r.len() == s.len() && forall|j: int|
            0 <= j < r.len() ==> #[trigger] r[j] == s[order[j].3 as int]
}

/// The clock time shown for an entry: hours, minutes and seconds, or eight spaces.
pub open spec fn clock_text(ts: Option<Timestamp>) -> Seq<char> {
    match ts {
        Some(t) => match formatted_of(t.secs, t.nanos, "%H:%M:%S"@) {
            Some(x) => x,
            None => "        "@,
        },
        None => "        "@,
    }
}

/// The clock time of an entry, as `clock_text` says.
pub fn clock_string(ts: Option<Timestamp>) -> (r: String)
    ensures
        r@ == clock_text(ts),
{
    match ts {
        Some(t) => match format_timestamp(t.secs, t.nanos, "%H:%M:%S") {
            Some(x) => x,
            None => string_of(chars_of("        ").as_slice()),
        },
        None => string_of(chars_of("        ").as_slice()),
    }
}

/// The clock time, level label and message of a timeline line.
pub open spec fn timeline_parts(e: EntryView) -> Seq<StyledView> {
    let ts = clock_text(e.timestamp);
    let lv = level_label(e.level);
    seq![
        StyledView { text: ts, style: dim() },
        StyledView { text: lv.0, style: lv.1 },
        StyledView { text: e.message, style: message_style(e.level) },
    ]
}

/// Merges log files into one timeline.
pub struct Correlator;

impl Correlator {
    pub fn new() -> (r: Correlator) {
        Correlator
    }

    /// The clock time, level label and message shown for an entry of the timeline.
    pub fn entry_parts(&self, e: &LogEntry) -> (r: Vec<Styled>)
        ensures
            crate::style::styled_views(r@) == timeline_parts(e@),
    {
        let ts = clock_string(e.timestamp);
        let style = match e.level {
            LogLevel::Error | LogLevel::Fatal => style_fg(Color::Red),
            LogLevel::Warn => style_fg(Color::Yellow),
            LogLevel::Debug | LogLevel::Trace => style_dim(),
            _ => crate::style::style_plain(),
        };
        let mut out: Vec<Styled> = Vec::new();
        out.push(styled(ts, style_dim()));
        out.push(format_level(&e.level));
        out.push(styled(e.message.clone(), style));
        assert(crate::style::styled_views(out@) =~= timeline_parts(e@));
        out
    }

    /// Reads the files' service names from their paths, then merges their lines as `merge`
    /// does (`contents[i]` holds the lines of `files[i]`).
    pub fn run(&self, files: &Vec<String>, contents: &Vec<Vec<String>>, filter: &Filter) -> (r: Vec<
        Tagged,
    >)
        requires
            files@.len() == contents@.len(),
        ensures
            exists|services: Seq<Seq<char>>|
                {
                    &&& services.len() == files@.len()
                    &&& forall|i: int|
                        0 <= i < files@.len() ==> (plain_path(files@[i]@) ==> #[trigger] services[i]
                            == service_of_stem(slash_stem(files@[i]@))) && (!files@[i]@.contains('\\')
                            ==> !services[i].contains('/'))
                    &&& timeline_of(
                        tagged_views(r@),
                        #[trigger] tag_files(services, contents.deep_view(), files@.len() as int, filter@),
                    )
                },
    {
        let mut services: Vec<String> = Vec::new();
        let mut i: usize = 0;
        while i < files.len()
            invariant
                i <= files@.len(),
                services@.len() == i,
                forall|j: int|
                    0 <= j < i ==> (plain_path(files@[j]@) ==> #[trigger] services@[j]@
                        == service_of_stem(slash_stem(files@[j]@))) && (!files@[j]@.contains('\\')
                        ==> !services@[j]@.contains('/')),
            decreases files@.len() - i,
        {
            services.push(service_name(files[i].as_str()));
            i = i + 1;
        }
        let r = self.merge(&services, contents, filter);
        let ghost sv = services.deep_view();
        assert(sv.len() == files@.len());
        assert forall|j: int| 0 <= j < files@.len() implies (plain_path(files@[j]@) ==> #[trigger] sv[j]
            == service_of_stem(slash_stem(files@[j]@))) && (!files@[j]@.contains('\\') ==> !sv[j].contains(
            '/',
        )) by {
            assert(sv[j] == services@[j]@);
        }
        r
    }

    /// Parses the lines of each service's file (`contents[i]` holds those of `services[i]`),
    /// tags each entry with its service and color, keeps the entries the filter lets
    /// through, and orders them by time.
    pub fn merge(&self, services: &Vec<String>, contents: &Vec<Vec<String>>, filter: &Filter) -> (r: Vec<
        Tagged,
    >)
        requires
            services@.len() == contents@.len(),
        ensures
            timeline_of(
                tagged_views(r@),
                tag_files(services.deep_view(), contents.deep_view(), services@.len() as int, filter@),
            ),
    {
        let parser = Parser::new();
        let ghost fv = services.deep_view();
        let ghost cv = contents.deep_view();
        let ghost f = filter@;
        let mut all: Vec<Tagged> = Vec::new();
        let mut i: usize = 0;
        while i < services.len()
            invariant
                i <= services@.len(),
                services@.len() == contents@.len(),
                fv == services.deep_view(),
                cv == contents.deep_view(),
                f == filter@,
                tagged_views(all@) =~= tag_files(fv, cv, i as int, f),
            decreases services@.len() - i,
        {
            let service = &services[i];
            let lines = &contents[i];
            let ghost before = tagged_views(all@);
            let mut j: usize = 0;
            assert(lines.deep_view() == cv[i as int]);
            assert(lines.deep_view().take(0) =~= Seq::<Seq<char>>::empty());
            while j < lines.len()
                invariant
                    j <= lines@.len(),
                    lines.deep_view() == cv[i as int],
                    service@ == fv[i as int],
                    i < services@.len(),
                    f == filter@,
                    tagged_views(all@) =~= before + tag_lines(
                        lines.deep_view().take(j as int),
                        service@,
                        i as int,
                        f,
                    ),
                decreases lines@.len() - j,
            {
                let mut entry = parser.parse_line(lines[j].as_str());
                entry.source = Some(service.clone());
                let ghost lv = lines.deep_view();
                assert(lv.take(j + 1).drop_last() =~= lv.take(j as int));
                assert(lv.take(j + 1).last() == lines@[j as int]@);
                let ghost prev = tagged_views(all@);
                if filter.matches(&entry) {
                    let t = Tagged { entry, color_index: i % 5 };
                    all.push(t);
                    assert(tagged_views(all@) =~= prev.push(t@));
                }
                j = j + 1;
            }
            assert(lines.deep_view().take(lines@.len() as int) =~= lines.deep_view());
            i = i + 1;
        }
        let ghost s = tagged_views(all@);
        let n = all.len();
        let mut keys: Vec<SortKey> = Vec::new();
        let mut k: usize = 0;
        while k < n
            invariant
                k <= n,
                n == all@.len(),
                s == tagged_views(all@),
                keys@.len() == k,
                forall|j: int| 0 <= j < k ==> #[trigger] keys@[j] == time_key(s[j].entry, j),
            decreases n - k,
        {
            let key = match all[k].entry.timestamp {
                Some(t) => (0u64, t.secs, t.nanos as u64, k as u64),
                None => (1u64, 0i64, 0u64, k as u64),
            };
            keys.push(key);
            k = k + 1;
        }
        assert(keys@ =~= time_keys(s));
        let order = sort_indexed(keys);
        let mut r: Vec<Tagged> = Vec::new();
        let mut p: usize = 0;
        while p < n
            invariant
                p <= n,
                n == all@.len(),
                s == tagged_views(all@),
                sorted_order_of(order@, time_keys(s)),
                r@.len() == p,
                forall|q: int| 0 <= q < p ==> #[trigger] tagged_views(r@)[q] == s[order@[q].3 as int],
            decreases n - p,
        {
            let idx = order[p].3 as usize;
            let t = &all[idx];
            let ghost prev = tagged_views(r@);
            let c = Tagged { entry: t.entry.copy(), color_index: t.color_index };
            r.push(c);
            assert(tagged_views(r@) =~= prev.push(c@));
            p = p + 1;
        }
        r
    }
}

} // verus!
