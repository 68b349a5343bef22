//! Properties of the library as a whole, proved over the specifications that the
//! functions' contracts use.

use vstd::prelude::*;
use crate::text::{is_ws, skip_ws, skip_ws_back, trimmed};
use crate::parser::{parsed, EntryView, LogLevel, level_of, json_value, timestamp_of, STANDARD_PATTERN, LEVEL_PATTERN};
use crate::timestamp::ts_of;
use crate::trusted::{json_fields_of, rfc3339_of, regex_is_match_of, regex_captures_of};
use crate::timestamp::Timestamp;
use crate::filter::{FilterView, admits, filter_of, description, time_of};
use crate::formatter::{highlight_from, highlighted, next_match};
use crate::aggregator::{
    Class, count_in, group_count, earliest_of, latest_of, bucket_start, spike_pos, spike_of,
    TimeBucket, summarizes, group_views, buckets_of, bucket_count, AnalysisSummary, bucket_matches,
    lemma_bucket_empty, in_bucket, starts_fit,
};
use crate::trusted::{chrono_min_secs, chrono_max_secs};
use crate::correlator::{TaggedView, timeline_of, time_keys, time_key, tag_lines, tag_files, service_entry};
use crate::ranking::{key_lt, sorted_order_of, SortKey};
use crate::watcher::{lines_in, lemma_lines_in_append};
use crate::reporter::{bar_view, bar_fits, level_rows_of, level_classes};
use crate::style::Style;
use crate::tui::{followed, scrolled_up};
use crate::session::{admitted, window, rank_count};

verus! {

proof fn lemma_skip_ws(s: Seq<char>, i: int)
    requires
        0 <= i <= s.len(),
    ensures
        i <= skip_ws(s, i) <= s.len(),
        skip_ws(s, i) < s.len() ==> !is_ws(s[skip_ws(s, i)]),
    decreases s.len() - i,
{
    if i < s.len() && is_ws(s[i]) {
        lemma_skip_ws(s, i + 1);
    }
}

proof fn lemma_skip_ws_back(s: Seq<char>, j: int)
    requires
        0 <= j <= s.len(),
    ensures
        0 <= skip_ws_back(s, j) <= j,
        skip_ws_back(s, j) > 0 ==> !is_ws(s[skip_ws_back(s, j) - 1]),
    decreases j,
{
    if j > 0 && is_ws(s[j - 1]) {
        lemma_skip_ws_back(s, j - 1);
    }
}

/// Trimming twice is trimming once: a trimmed line has no surrounding whitespace left.
pub proof fn law_trim_idempotent(s: Seq<char>)
    ensures
        trimmed(trimmed(s)) == trimmed(s),
{
    let a = skip_ws(s, 0);
    let b = skip_ws_back(s, s.len() as int);
    lemma_skip_ws(s, 0);
    lemma_skip_ws_back(s, s.len() as int);
    let t = trimmed(s);
    if a < b {
        assert(t[0] == s[a]);
        assert(t[t.len() - 1] == s[b - 1]);
        assert(skip_ws(t, 0) == 0);
        assert(skip_ws_back(t, t.len() as int) == t.len());
        assert(t.subrange(0, t.len() as int) =~= t);
    } else {
        assert(t.len() == 0);
        assert(trimmed(t) =~= t);
    }
}

/// Whitespace around a line does not change what it parses to: a line and its trimmed
/// form give the same entry.
pub proof fn law_parse_ignores_surrounding_space(raw: Seq<char>)
    ensures
        parsed(trimmed(raw)) == parsed(raw),
{
    law_trim_idempotent(raw);
}

/// The text of a sequence of pieces, joined.
pub open spec fn joined(segs: Seq<(Seq<char>, bool)>) -> Seq<char>
    decreases segs.len(),
{
    if segs.len() == 0 {
        Seq::empty()
    } else {
        segs[0].0 + joined(segs.drop_first())
    }
}

proof fn lemma_single_piece(t: Seq<char>)
    ensures
        joined(seq![(t, false)]) == t,
{
    let one = seq![(t, false)];
    assert(one.drop_first() =~= Seq::<(Seq<char>, bool)>::empty());
    assert(joined(one.drop_first()) == Seq::<char>::empty());
    assert(one[0] == (t, false));
    assert(t + Seq::<char>::empty() =~= t);
}

proof fn lemma_highlight_from_rejoins(text: Seq<char>, pat: Seq<char>, from: int)
    requires
        0 <= from <= text.len(),
    ensures
        joined(highlight_from(text, pat, from)) == text.subrange(from, text.len() as int),
    decreases text.len() - from,
{
    let whole = text.subrange(from, text.len() as int);
    if pat.len() == 0 {
        lemma_single_piece(whole);
    } else {
        match next_match(text, pat, from) {
            Some(p) => if from <= p && p + pat.len() <= text.len() {
                let a = text.subrange(from, p);
                let b = text.subrange(p, p + pat.len());
                let rest = highlight_from(text, pat, p + pat.len());
                lemma_highlight_from_rejoins(text, pat, p + pat.len());
                let all = seq![(a, false), (b, true)] + rest;
                assert(all.drop_first() =~= seq![(b, true)] + rest);
                assert(all.drop_first().drop_first() =~= rest);
                assert(all.drop_first()[0] == (b, true));
                assert(joined(all.drop_first()) == b + joined(rest));
                assert(all[0] == (a, false));
                assert(joined(all) == a + joined(all.drop_first()));
                assert(a + (b + text.subrange(p + pat.len(), text.len() as int)) =~= whole);
                assert(highlight_from(text, pat, from) == all);
            } else {
                lemma_single_piece(whole);
            },
            None => {
                lemma_single_piece(whole);
            },
        }
    }
}

/// Marking the matches of a pattern loses and adds no text: the pieces, joined, are the
/// message.
pub proof fn law_highlight_rejoins(text: Seq<char>, pat: Seq<char>)
    ensures
        joined(highlighted(text, pat)) == text,
{
    if pat.len() == 0 {
        lemma_single_piece(text);
    } else {
        lemma_highlight_from_rejoins(text, pat, 0);
        assert(text.subrange(0, text.len() as int) =~= text);
    }
}

/// A filter built with no conditions lets every entry through, whatever the clock reads.
pub proof fn law_empty_filter_admits_all(clock: Option<Timestamp>, e: EntryView)
    ensures
        filter_of(None, None, None, None, false, clock) matches Ok(f) && admits(f, e),
{
}

/// A filter on a level alone shows that level and everything more severe, and nothing else;
/// a word that names no level is refused.
pub proof fn law_level_shows_at_least(level: Seq<char>, clock: Option<Timestamp>, e: EntryView)
    ensures
        level_of(level) == LogLevel::Unknown ==> filter_of(Some(level), None, None, None, false, clock) is Err,
        level_of(level) != LogLevel::Unknown ==> (filter_of(Some(level), None, None, None, false, clock) matches Ok(f)
            && (admits(f, e) <==> e.level.rank() >= level_of(level).rank())),
{
}

/// The level and time gates of a filter.
pub open spec fn passes_gates(f: FilterView, e: EntryView) -> bool {
    &&& e.level.rank() >= f.min_level
    &&& !(e.timestamp is Some && f.since is Some && e.timestamp->0.before(f.since->0))
    &&& !(e.timestamp is Some && f.until is Some && f.until->0.before(e.timestamp->0))
}

/// Inverting the pattern shows exactly the entries, among those passing the level and time
/// conditions, that the pattern alone hides.
pub proof fn law_invert_complements(
    level: Option<Seq<char>>,
    since: Option<Seq<char>>,
    until: Option<Seq<char>>,
    pat: Seq<char>,
    clock: Option<Timestamp>,
    e: EntryView,
)
    requires
        filter_of(level, since, until, Some(pat), false, clock) is Ok,
    ensures
        filter_of(level, since, until, Some(pat), true, clock) is Ok,
        passes_gates(filter_of(level, since, until, Some(pat), false, clock)->Ok_0, e) ==> admits(
            filter_of(level, since, until, Some(pat), true, clock)->Ok_0,
            e,
        ) == !admits(filter_of(level, since, until, Some(pat), false, clock)->Ok_0, e),
{
}

proof fn lemma_class_counts(es: Seq<EntryView>)
    ensures
        count_in(es, Class::Errors) + count_in(es, Class::Warnings) + count_in(es, Class::Infos)
            + count_in(es, Class::Debugs) <= es.len(),
    decreases es.len(),
{
    if es.len() > 0 {
        lemma_class_counts(es.drop_last());
    }
}

/// The per-level counts of a summary never exceed the number of lines (unknown levels are
/// counted in none).
pub proof fn law_counts_within_total(s: crate::aggregator::AnalysisSummary, es: Seq<EntryView>, width: int, n: nat)
    requires
        summarizes(s, es, width, n),
    ensures
        s.error_count + s.warn_count + s.info_count + s.debug_count <= s.total_lines,
{
    lemma_class_counts(es);
}

proof fn lemma_group_within_class(es: Seq<EntryView>, c: Class, m: Seq<char>)
    ensures
        group_count(es, c, m) <= count_in(es, c),
    decreases es.len(),
{
    if es.len() > 0 {
        lemma_group_within_class(es.drop_last(), c, m);
    }
}

/// No repeated error (warning) message is counted more often than there are errors
/// (warnings).
pub proof fn law_groups_within_class(s: crate::aggregator::AnalysisSummary, es: Seq<EntryView>, width: int, n: nat)
    requires
        summarizes(s, es, width, n),
    ensures
        forall|k: int|
            0 <= k < s.top_errors@.len() ==> (#[trigger] s.top_errors@[k]).count <= s.error_count,
        forall|k: int|
            0 <= k < s.top_warns@.len() ==> (#[trigger] s.top_warns@[k]).count <= s.warn_count,
{
    assert forall|k: int| 0 <= k < s.top_errors@.len() implies (#[trigger] s.top_errors@[k]).count
        <= s.error_count by {
        let g = group_views(s.top_errors@)[k];
        lemma_group_within_class(es, Class::Errors, g.message);
    }
    assert forall|k: int| 0 <= k < s.top_warns@.len() implies (#[trigger] s.top_warns@[k]).count
        <= s.warn_count by {
        let g = group_views(s.top_warns@)[k];
        lemma_group_within_class(es, Class::Warnings, g.message);
    }
}

/// The earliest timestamp is never after the latest, and either both exist or neither.
pub proof fn law_span_ordered(es: Seq<EntryView>)
    ensures
        (earliest_of(es) is Some) == (latest_of(es) is Some),
        earliest_of(es) is Some ==> !latest_of(es)->0.before(earliest_of(es)->0),
    decreases es.len(),
{
    if es.len() > 0 {
        law_span_ordered(es.drop_last());
    }
}

/// A timestamp falls in the minute bucket that starts at or before it and ends after it.
pub proof fn law_bucket_holds_time(secs: i64)
    ensures
        bucket_start(secs, 60) <= secs < bucket_start(secs, 60) + 60,
        bucket_start(secs, 60) % 60 == 0,
{
    crate::aggregator::lemma_bucket_start(secs, 60);
}

proof fn lemma_spike_pos(r: Seq<TimeBucket>, k: int)
    requires
        0 <= k <= r.len(),
    ensures
        k == 0 <==> spike_pos(r, k) is None,
        spike_pos(r, k) matches Some(p) ==> 0 <= p < k && forall|j: int| 0 <= j < k ==> (#[trigger] r[j]).errors <= r[p].errors,
    decreases k,
{
    if k > 0 {
        lemma_spike_pos(r, k - 1);
    }
}

/// The busiest interval has at least as many errors as any other, and is one of them.
pub proof fn law_spike_is_maximum(r: Seq<TimeBucket>)
    ensures
        r.len() == 0 ==> spike_of(r) == (None::<Timestamp>, 0usize),
        r.len() > 0 ==> exists|p: int|
            0 <= p < r.len() && spike_of(r) == (Some(r[p].start), r[p].errors) && forall|j: int|
                0 <= j < r.len() ==> (#[trigger] r[j]).errors <= r[p].errors,
{
    lemma_spike_pos(r, r.len() as int);
    if r.len() > 0 {
        let p = spike_pos(r, r.len() as int)->0;
        assert(spike_of(r) == (Some(r[p].start), r[p].errors));
    }
}

/// The merged timeline is in time order, entries without a timestamp last, and it loses
/// no entry.
pub proof fn law_timeline_in_time_order(r: Seq<TaggedView>, s: Seq<TaggedView>)
    requires
        timeline_of(r, s),
        s.len() <= u64::MAX,
    ensures
        r.len() == s.len(),
        forall|i: int, j: int|
            0 <= i < j < r.len() && (#[trigger] r[j]).entry.timestamp is Some ==> (#[trigger] r[i]).entry.timestamp
                is Some && !r[j].entry.timestamp->0.before(r[i].entry.timestamp->0),
        forall|i: int| 0 <= i < s.len() ==> r.contains(#[trigger] s[i]),
{
    let order = choose|order: Seq<(u64, i64, u64, u64)>|
        #![trigger sorted_order_of(order, time_keys(s))]
        sorted_order_of(order, time_keys(s)) && r.len() == s.len() && forall|j: int|
            0 <= j < r.len() ==> #[trigger] r[j] == s[order[j].3 as int];
    let keys = time_keys(s);
    assert forall|i: int, j: int|
        0 <= i < j < r.len() && (#[trigger] r[j]).entry.timestamp is Some implies (#[trigger] r[i]).entry.timestamp
        is Some && !r[j].entry.timestamp->0.before(r[i].entry.timestamp->0) by {
        assert(key_lt(order[i], order[j]));
        let a = order[i].3 as int;
        let b = order[j].3 as int;
        assert(keys[a] == order[i]);
        assert(keys[b] == order[j]);
        assert(keys[a] == time_key(s[a].entry, a));
        assert(keys[b] == time_key(s[b].entry, b));
    }
    assert forall|i: int| 0 <= i < s.len() implies r.contains(#[trigger] s[i]) by {
        assert(order.contains(keys[i]));
        let p = choose|p: int| 0 <= p < order.len() && order[p] == keys[i];
        assert(keys[i] == time_key(s[i].entry, i));
        assert(order[p].3 == i);
        assert(r[p] == s[i]);
    }
}

/// Following a file in two reads is the same as one read of all its bytes: the position is
/// the number of bytes read, and the lines are those of the first part, then those of the
/// second, when the first part ends with a whole line.
pub proof fn law_reads_compose(c: Seq<u8>, d: Seq<u8>)
    requires
        c.len() == 0 || c.last() == 10u8,
    ensures
        lines_in(c + d) == lines_in(c) + lines_in(d),
        (c + d).len() == c.len() + d.len(),
{
    lemma_lines_in_append(c, d);
}

/// A bar always spans its full width: filled cells and empty cells add up to it.
pub proof fn law_bar_has_width(value: usize, max: usize, width: usize)
    requires
        bar_fits(value, max, width),
    ensures
        bar_view(value, max, width)[0].text.len() + bar_view(value, max, width)[1].text.len() == width,
{
    if max != 0 {
        let v = value as int;
        let w = width as int;
        let m = max as int;
        assert((v * w) / m >= 0) by (nonlinear_arith)
            requires
                v >= 0,
                w >= 0,
                m > 0,
        ;
    }
}


/// Number of entries that carry a timestamp.
pub open spec fn stamped(es: Seq<EntryView>) -> nat
    decreases es.len(),
{
    if es.len() == 0 {
        0
    } else {
        stamped(es.drop_last()) + if es.last().timestamp is Some {
            1nat
        } else {
            0nat
        }
    }
}

/// Sum of the entries counted in the intervals starting at `starts`.
pub open spec fn counted_in(starts: Seq<int>, es: Seq<EntryView>, width: int) -> nat
    decreases starts.len(),
{
    if starts.len() == 0 {
        0
    } else {
        counted_in(starts.drop_last(), es, width) + bucket_count(es, width, starts.last(), None)
    }
}

/// How many of `starts` equal `x`.
pub open spec fn occurrences(starts: Seq<int>, x: int) -> nat
    decreases starts.len(),
{
    if starts.len() == 0 {
        0
    } else {
        occurrences(starts.drop_last(), x) + if starts.last() == x {
            1nat
        } else {
            0nat
        }
    }
}

proof fn lemma_occurrences(starts: Seq<int>, x: int)
    requires
        forall|i: int, j: int| 0 <= i < j < starts.len() ==> starts[i] != starts[j],
    ensures
        occurrences(starts, x) == if starts.contains(x) {
            1nat
        } else {
            0nat
        },
    decreases starts.len(),
{
    if starts.len() > 0 {
        let d = starts.drop_last();
        lemma_occurrences(d, x);
        if starts.last() == x {
            assert(!d.contains(x)) by {
                if d.contains(x) {
                    let i = choose|i: int| 0 <= i < d.len() && d[i] == x;
                    assert(starts[i] == starts[starts.len() - 1]);
                }
            }
            assert(starts.contains(x)) by {
                assert(starts[starts.len() - 1] == x);
            }
        } else {
            if d.contains(x) {
                let i = choose|i: int| 0 <= i < d.len() && d[i] == x;
                assert(starts[i] == x);
            }
            if starts.contains(x) {
                let i = choose|i: int| 0 <= i < starts.len() && starts[i] == x;
                assert(d[i] == x);
            }
        }
    }
}

proof fn lemma_counted_step(starts: Seq<int>, es: Seq<EntryView>, e: EntryView, width: int)
    ensures
        counted_in(starts, es.push(e), width) == counted_in(starts, es, width) + if e.timestamp is Some {
            occurrences(starts, bucket_start(e.timestamp->0.secs, width))
        } else {
            0nat
        },
    decreases starts.len(),
{
    assert(es.push(e).drop_last() =~= es);
    if starts.len() > 0 {
        lemma_counted_step(starts.drop_last(), es, e, width);
    }
}

proof fn lemma_counted_all(starts: Seq<int>, es: Seq<EntryView>, width: int)
    requires
        forall|i: int, j: int| 0 <= i < j < starts.len() ==> starts[i] != starts[j],
        forall|i: int|
            0 <= i < es.len() && (#[trigger] es[i]).timestamp is Some ==> starts.contains(
                bucket_start(es[i].timestamp->0.secs, width),
            ),
    ensures
        counted_in(starts, es, width) == stamped(es),
    decreases es.len(),
{
    if es.len() == 0 {
        lemma_counted_empty(starts, es, width);
    } else {
        let d = es.drop_last();
        let e = es.last();
        assert forall|i: int| 0 <= i < d.len() && (#[trigger] d[i]).timestamp is Some implies starts.contains(
            bucket_start(d[i].timestamp->0.secs, width),
        ) by {
            assert(d[i] == es[i]);
        }
        lemma_counted_all(starts, d, width);
        assert(d.push(e) =~= es);
        lemma_counted_step(starts, d, e, width);
        if e.timestamp is Some {
            assert(es[es.len() - 1] == e);
            lemma_occurrences(starts, bucket_start(e.timestamp->0.secs, width));
        }
    }
}

proof fn lemma_counted_empty(starts: Seq<int>, es: Seq<EntryView>, width: int)
    requires
        es.len() == 0,
    ensures
        counted_in(starts, es, width) == 0,
    decreases starts.len(),
{
    if starts.len() > 0 {
        lemma_counted_empty(starts.drop_last(), es, width);
    }
}

/// Sum of the `total` of the buckets.
pub open spec fn bucket_totals(r: Seq<TimeBucket>) -> nat
    decreases r.len(),
{
    if r.len() == 0 {
        0
    } else {
        bucket_totals(r.drop_last()) + r.last().total as nat
    }
}

proof fn lemma_totals_are_counts(r: Seq<TimeBucket>, es: Seq<EntryView>, width: int)
    requires
        forall|k: int|
            0 <= k < r.len() ==> (#[trigger] r[k]).total == bucket_count(es, width, r[k].start.secs as int, None),
    ensures
        bucket_totals(r) == counted_in(r.map_values(|b: TimeBucket| b.start.secs as int), es, width),
    decreases r.len(),
{
    let starts = r.map_values(|b: TimeBucket| b.start.secs as int);
    if r.len() > 0 {
        let d = r.drop_last();
        assert forall|k: int| 0 <= k < d.len() implies (#[trigger] d[k]).total == bucket_count(
            es,
            width,
            d[k].start.secs as int,
            None,
        ) by {
            assert(d[k] == r[k]);
        }
        lemma_totals_are_counts(d, es, width);
        assert(starts.drop_last() =~= d.map_values(|b: TimeBucket| b.start.secs as int));
        assert(r.last() == r[r.len() - 1]);
    }
}

/// Every entry with a timestamp is counted in exactly one minute: the buckets' totals add
/// up to the number of timestamped entries.
pub proof fn law_buckets_partition_stamped(r: Seq<TimeBucket>, es: Seq<EntryView>, width: int)
    requires
        buckets_of(r, es, width),
    ensures
        bucket_totals(r) == stamped(es),
{
    let starts = r.map_values(|b: TimeBucket| b.start.secs as int);
    lemma_totals_are_counts(r, es, width);
    assert forall|i: int, j: int| 0 <= i < j < starts.len() implies starts[i] != starts[j] by {
        assert(r[i].start.secs < r[j].start.secs);
    }
    assert forall|i: int|
        0 <= i < es.len() && (#[trigger] es[i]).timestamp is Some implies starts.contains(
            bucket_start(es[i].timestamp->0.secs, width),
        ) by {
        let k = choose|k: int|
            0 <= k < r.len() && #[trigger] r[k].start.secs == bucket_start(es[i].timestamp->0.secs, width);
        assert(starts[k] == bucket_start(es[i].timestamp->0.secs, width));
    }
    lemma_counted_all(starts, es, width);
}

/// The summary of filters has one line for each active condition.
pub proof fn law_one_line_per_condition(f: FilterView)
    ensures
        description(f).len() == (if f.min_level > 0 { 1int } else { 0int }) + (if f.since is Some {
            1int
        } else {
            0int
        }) + (if f.until is Some { 1int } else { 0int }) + (if f.pattern is Some {
            1int
        } else {
            0int
        }),
{
}

/// The default analysis (`Aggregator::new`: one-minute buckets, five groups) keeps at most
/// five groups in each list of repeated messages, and every bucket starts at a whole minute.
pub proof fn law_default_limits(s: AnalysisSummary, es: Seq<EntryView>)
    requires
        summarizes(s, es, 60, 5),
    ensures
        s.top_errors@.len() <= 5,
        s.top_warns@.len() <= 5,
        forall|k: int| 0 <= k < s.time_buckets@.len() ==> (#[trigger] s.time_buckets@[k]).start.secs % 60 == 0,
{
    assert(group_views(s.top_errors@).len() == s.top_errors@.len());
    assert(group_views(s.top_warns@).len() == s.top_warns@.len());
    assert forall|k: int| 0 <= k < s.time_buckets@.len() implies (#[trigger] s.time_buckets@[k]).start.secs
        % 60 == 0 by {
        let t = s.time_buckets@[k];
        let b = t.start.secs as int;
        assert(bucket_matches(t, es, 60));
        lemma_bucket_empty(es, 60, b);
        let i = choose|i: int| 0 <= i < es.len() && in_bucket(#[trigger] es[i], 60, b);
        crate::aggregator::lemma_bucket_start(es[i].timestamp->0.secs, 60);
    }
}

/// Entries whose times chrono can hold (every time the parser reads through chrono) meet
/// what the one-minute analysis asks: each bucket start fits a 64-bit count of seconds.
pub proof fn law_chrono_times_fit(es: Seq<EntryView>)
    requires
        forall|i: int|
            0 <= i < es.len() && (#[trigger] es[i]).timestamp is Some ==> chrono_min_secs()
                <= es[i].timestamp->0.secs <= chrono_max_secs(),
    ensures
        starts_fit(es, 60),
{
    assert forall|i: int| 0 <= i < es.len() && (#[trigger] es[i]).timestamp is Some implies bucket_start(
        es[i].timestamp->0.secs,
        60,
    ) >= i64::MIN by {
        crate::aggregator::lemma_bucket_start(es[i].timestamp->0.secs, 60);
    }
}

/// Scrolling up from the last page moves the view one line up, and the next frame leaves it
/// there; a view at the last page stays at the last page.
pub proof fn law_scroll_up_sticks(len: nat, height: nat)
    requires
        len > height,
    ensures
        followed(scrolled_up((len - height) as nat), len, height) == len - height - 1,
        followed((len - height) as nat, len, height) == len - height,
{
}

/// The message of a JSON line is its "msg" member, else its "message" member, else its
/// "body" member (members with string values only), else the whole trimmed line; its level
/// word is read from "level", else "severity", else "lvl"; its time from "time", else
/// "timestamp", else "ts", as RFC 3339.
pub proof fn law_json_keys(raw: Seq<char>)
    requires
        trimmed(raw).len() > 0,
        trimmed(raw)[0] == '{',
        json_fields_of(trimmed(raw)) is Some,
    ensures
        ({
            let t = trimmed(raw);
            let fs = json_fields_of(t)->0;
            let e = parsed(raw);
            &&& json_value(fs, "msg"@) is Some ==> e.message == json_value(fs, "msg"@)->0
            &&& json_value(fs, "msg"@) is None && json_value(fs, "message"@) is Some ==> e.message
                == json_value(fs, "message"@)->0
            &&& json_value(fs, "msg"@) is None && json_value(fs, "message"@) is None && json_value(
                fs,
                "body"@,
            ) is Some ==> e.message == json_value(fs, "body"@)->0
            &&& json_value(fs, "msg"@) is None && json_value(fs, "message"@) is None && json_value(
                fs,
                "body"@,
            ) is None ==> e.message == t
            &&& json_value(fs, "level"@) is Some ==> e.level == level_of(json_value(fs, "level"@)->0)
            &&& json_value(fs, "level"@) is None && json_value(fs, "severity"@) is Some ==> e.level
                == level_of(json_value(fs, "severity"@)->0)
            &&& json_value(fs, "level"@) is None && json_value(fs, "severity"@) is None && json_value(
                fs,
                "lvl"@,
            ) is Some ==> e.level == level_of(json_value(fs, "lvl"@)->0)
            &&& json_value(fs, "time"@) is Some ==> e.timestamp == match rfc3339_of(
                json_value(fs, "time"@)->0,
            ) {
                Some(p) => Some(ts_of(p)),
                None => None,
            }
            &&& json_value(fs, "time"@) is None && json_value(fs, "timestamp"@) is None && json_value(
                fs,
                "ts"@,
            ) is None ==> e.timestamp is None
            &&& e.raw == t
            &&& e.source is None
        }),
{
}

/// An entry is shown exactly when its level ranks at least the minimum, it is not stamped
/// before `since`, it is not stamped after `until` (each bound on its own; an entry without
/// a time passes both), and its raw line matches the pattern (or, inverted, does not).
pub proof fn law_filter_conditions(f: FilterView, e: EntryView)
    ensures
        admits(f, e) <==> {
            &&& e.level.rank() >= f.min_level
            &&& (e.timestamp is Some && f.since is Some ==> !e.timestamp->0.before(f.since->0))
            &&& (e.timestamp is Some && f.until is Some ==> !f.until->0.before(e.timestamp->0))
            &&& (f.pattern is Some ==> regex_is_match_of(f.pattern->0, e.raw) != f.invert_match)
        },
{
}

/// Each option sets its own part of the filter it builds: the level word the minimum rank,
/// each time expression its own bound, the pattern (made case-insensitive) the pattern.
pub proof fn law_filter_fields(
    level: Option<Seq<char>>,
    since: Option<Seq<char>>,
    until: Option<Seq<char>>,
    grep: Option<Seq<char>>,
    invert: bool,
    clock: Option<Timestamp>,
)
    ensures
        filter_of(level, since, until, grep, invert, clock) is Ok ==> {
            let f = filter_of(level, since, until, grep, invert, clock)->Ok_0;
            &&& f.min_level == match level {
                Some(l) => level_of(l).rank(),
                None => 0u8,
            }
            &&& since is None ==> f.since is None
            &&& since is Some ==> time_of(since->0, clock) is Ok && f.since == Some(
                time_of(since->0, clock)->Ok_0,
            )
            &&& until is None ==> f.until is None
            &&& until is Some ==> time_of(until->0, clock) is Ok && f.until == Some(
                time_of(until->0, clock)->Ok_0,
            )
            &&& grep is None ==> f.pattern is None
            &&& grep is Some ==> f.pattern == Some("(?i)"@ + grep->0)
            &&& f.invert_match == invert
        },
{
}

/// The entries a `read` (or an `analyze`) keeps are exactly those of its lines, parsed,
/// that the filter admits, in the order of the lines.
pub proof fn law_read_keeps_admitted(lines: Seq<Seq<char>>, f: FilterView)
    ensures
        admitted(lines, f) == lines.map_values(|l: Seq<char>| parsed(l)).filter(
            |e: EntryView| admits(f, e),
        ),
    decreases lines.len(),
{
    reveal_with_fuel(Seq::filter, 1);
    let pl = lines.map_values(|l: Seq<char>| parsed(l));
    if lines.len() > 0 {
        law_read_keeps_admitted(lines.drop_last(), f);
        assert(pl.drop_last() =~= lines.drop_last().map_values(|l: Seq<char>| parsed(l)));
        assert(pl.last() == parsed(lines.last()));
    } else {
        assert(pl =~= Seq::<EntryView>::empty());
    }
}

/// Every entry a `read` shows is admitted by the filter and is the entry of a line of its
/// window; every such admitted line is shown.
pub proof fn law_read_shows_only_admitted(lines: Seq<Seq<char>>, tail: Option<usize>, f: FilterView)
    ensures
        forall|k: int|
            0 <= k < admitted(window(lines, tail), f).len() ==> admits(
                f,
                #[trigger] admitted(window(lines, tail), f)[k],
            ),
        forall|i: int|
            0 <= i < window(lines, tail).len() && admits(f, parsed(#[trigger] window(lines, tail)[i]))
                ==> admitted(window(lines, tail), f).contains(parsed(window(lines, tail)[i])),
{
    let w = window(lines, tail);
    let pl = w.map_values(|l: Seq<char>| parsed(l));
    let pred = |e: EntryView| admits(f, e);
    law_read_keeps_admitted(w, f);
    assert forall|k: int| 0 <= k < admitted(w, f).len() implies admits(f, #[trigger] admitted(w, f)[k]) by {
        pl.lemma_filter_pred(pred, k);
    }
    assert forall|i: int| 0 <= i < w.len() && admits(f, parsed(#[trigger] w[i])) implies admitted(
        w,
        f,
    ).contains(parsed(w[i])) by {
        assert(pl[i] == parsed(w[i]));
        pl.lemma_filter_contains(pred, i);
    }
}

/// Line `l` of file `i`, as the merged timeline tags it.
pub open spec fn tagged_line(
    services: Seq<Seq<char>>,
    contents: Seq<Seq<Seq<char>>>,
    i: int,
    l: int,
) -> TaggedView {
    TaggedView { entry: service_entry(contents[i][l], services[i]), color_index: (i % 5) as usize }
}

/// The entries of one file that the merge keeps are exactly its lines, parsed and tagged
/// with the file's service and color, that the filter admits, in order.
pub proof fn law_file_keeps_admitted(lines: Seq<Seq<char>>, service: Seq<char>, i: int, f: FilterView)
    ensures
        tag_lines(lines, service, i, f) == lines.map_values(
            |l: Seq<char>| TaggedView { entry: service_entry(l, service), color_index: (i % 5) as usize },
        ).filter(|t: TaggedView| admits(f, t.entry)),
    decreases lines.len(),
{
    reveal_with_fuel(Seq::filter, 1);
    let tl = lines.map_values(
        |l: Seq<char>| TaggedView { entry: service_entry(l, service), color_index: (i % 5) as usize },
    );
    if lines.len() > 0 {
        law_file_keeps_admitted(lines.drop_last(), service, i, f);
        assert(tl.drop_last() =~= lines.drop_last().map_values(
            |l: Seq<char>| TaggedView { entry: service_entry(l, service), color_index: (i % 5) as usize },
        ));
    } else {
        assert(tl =~= Seq::<TaggedView>::empty());
    }
}

proof fn lemma_tag_files_members(
    services: Seq<Seq<char>>,
    contents: Seq<Seq<Seq<char>>>,
    k: int,
    f: FilterView,
)
    requires
        0 <= k <= services.len(),
        services.len() == contents.len(),
    ensures
        forall|x: int|
            0 <= x < tag_files(services, contents, k, f).len() ==> {
                let t = #[trigger] tag_files(services, contents, k, f)[x];
                &&& admits(f, t.entry)
                &&& exists|i: int, l: int|
                    0 <= i < k && 0 <= l < contents[i].len() && t == tagged_line(services, contents, i, l)
            },
        forall|i: int, l: int|
            0 <= i < k && 0 <= l < contents[i].len() && admits(f, #[trigger] tagged_line(services, contents, i, l).entry)
                ==> tag_files(services, contents, k, f).contains(tagged_line(services, contents, i, l)),
    decreases k,
{
    if k > 0 {
        lemma_tag_files_members(services, contents, k - 1, f);
        let a = tag_files(services, contents, k - 1, f);
        let lines = contents[k - 1];
        let svc = services[k - 1];
        let b = tag_lines(lines, svc, k - 1, f);
        let tl = lines.map_values(
            |l: Seq<char>| TaggedView { entry: service_entry(l, svc), color_index: ((k - 1) % 5) as usize },
        );
        let pred = |t: TaggedView| admits(f, t.entry);
        law_file_keeps_admitted(lines, svc, k - 1, f);
        assert(tag_files(services, contents, k, f) == a + b);
        assert forall|x: int| 0 <= x < (a + b).len() implies {
            let t = #[trigger] (a + b)[x];
            &&& admits(f, t.entry)
            &&& exists|i: int, l: int|
                0 <= i < k && 0 <= l < contents[i].len() && t == tagged_line(services, contents, i, l)
        } by {
            if x < a.len() {
                assert((a + b)[x] == a[x]);
            } else {
                let y = x - a.len();
                assert((a + b)[x] == b[y]);
                tl.lemma_filter_pred(pred, y);
                assert(tl.filter(pred).contains(b[y]));
                tl.lemma_filter_contains_rev(pred, b[y]);
                let l = choose|l: int| 0 <= l < tl.len() && tl[l] == b[y];
                assert(b[y] == tagged_line(services, contents, k - 1, l));
            }
        }
        assert forall|i: int, l: int|
            0 <= i < k && 0 <= l < contents[i].len() && admits(f, #[trigger] tagged_line(services, contents, i, l).entry)
                implies (a + b).contains(tagged_line(services, contents, i, l)) by {
            let t = tagged_line(services, contents, i, l);
            if i < k - 1 {
                let x = choose|x: int| 0 <= x < a.len() && a[x] == t;
                assert((a + b)[x] == t);
            } else {
                assert(tl[l] == t);
                tl.lemma_filter_contains(pred, l);
                let y = choose|y: int| 0 <= y < b.len() && b[y] == t;
                assert((a + b)[a.len() + y] == t);
            }
        }
    }
}

/// The merged timeline holds only entries that the filter admits, each a line of one of the
/// files tagged with that file's service and color; and every line of every file that the
/// filter admits is in it.
pub proof fn law_merge_keeps_admitted(
    r: Seq<TaggedView>,
    services: Seq<Seq<char>>,
    contents: Seq<Seq<Seq<char>>>,
    f: FilterView,
)
    requires
        services.len() == contents.len(),
        tag_files(services, contents, services.len() as int, f).len() <= u64::MAX,
        timeline_of(r, tag_files(services, contents, services.len() as int, f)),
    ensures
        forall|j: int|
            0 <= j < r.len() ==> admits(f, (#[trigger] r[j]).entry) && exists|i: int, l: int|
                0 <= i < services.len() && 0 <= l < contents[i].len() && r[j] == tagged_line(
                    services,
                    contents,
                    i,
                    l,
                ),
        forall|i: int, l: int|
            0 <= i < services.len() && 0 <= l < contents[i].len() && admits(
                f,
                #[trigger] tagged_line(services, contents, i, l).entry,
            ) ==> r.contains(tagged_line(services, contents, i, l)),
{
    let n = services.len() as int;
    let s = tag_files(services, contents, n, f);
    lemma_tag_files_members(services, contents, n, f);
    let keys = time_keys(s);
    let order = choose|order: Seq<SortKey>|
        #![trigger sorted_order_of(order, time_keys(s))]
        sorted_order_of(order, time_keys(s)) && r.len() == s.len() && forall|j: int|
            0 <= j < r.len() ==> #[trigger] r[j] == s[order[j].3 as int];
    assert forall|j: int| 0 <= j < r.len() implies admits(f, (#[trigger] r[j]).entry) && exists|i: int, l: int|
        0 <= i < services.len() && 0 <= l < contents[i].len() && r[j] == tagged_line(services, contents, i, l) by {
        assert(order[j].3 < keys.len());
        let x = order[j].3 as int;
        assert(r[j] == s[x]);
    }
    assert forall|i: int, l: int|
        0 <= i < services.len() && 0 <= l < contents[i].len() && admits(
            f,
            #[trigger] tagged_line(services, contents, i, l).entry,
        ) implies r.contains(tagged_line(services, contents, i, l)) by {
        let t = tagged_line(services, contents, i, l);
        assert(s.contains(t));
        let x = choose|x: int| 0 <= x < s.len() && s[x] == t;
        assert(order.contains(keys[x]));
        let p = choose|p: int| 0 <= p < order.len() && order[p] == keys[x];
        assert(keys[x] == time_key(s[x].entry, x));
        assert(order[p].3 == x);
        assert(r[p] == s[x]);
    }
}

/// The count that a breakdown label names: errors, warnings, infos or debug lines.
pub open spec fn count_named(s: AnalysisSummary, label: Seq<char>) -> int {
    if label == "ERROR"@ {
        s.error_count as int
    } else if label == "WARN "@ {
        s.warn_count as int
    } else if label == "INFO "@ {
        s.info_count as int
    } else if label == "DEBUG"@ {
        s.debug_count as int
    } else {
        -1
    }
}

proof fn lemma_labels_distinct(s: AnalysisSummary)
    ensures
        forall|a: int, b: int|
            0 <= a < 4 && 0 <= b < 4 && a != b ==> (#[trigger] level_classes(s)[a]).0 != (#[trigger] level_classes(s)[b]).0,
        forall|a: int| 0 <= a < 4 ==> count_named(s, (#[trigger] level_classes(s)[a]).0) == level_classes(s)[a].2,
{
    reveal_strlit("ERROR");
    reveal_strlit("WARN ");
    reveal_strlit("INFO ");
    reveal_strlit("DEBUG");
    assert("ERROR"@[0] != "WARN "@[0] && "ERROR"@[0] != "INFO "@[0] && "ERROR"@[0] != "DEBUG"@[0]);
    assert("WARN "@[0] != "INFO "@[0] && "WARN "@[0] != "DEBUG"@[0] && "INFO "@[0] != "DEBUG"@[0]);
}

/// Every kept class is one of the four, with a count that is not zero.
proof fn lemma_kept_is_class(s: AnalysisSummary, k: int)
    requires
        0 <= k < level_classes(s).filter(|x: (Seq<char>, Style, usize)| x.2 != 0).len(),
    ensures
        exists|a: int|
            0 <= a < 4 && level_classes(s).filter(|x: (Seq<char>, Style, usize)| x.2 != 0)[k]
                == #[trigger] level_classes(s)[a],
        level_classes(s).filter(|x: (Seq<char>, Style, usize)| x.2 != 0)[k].2 != 0,
{
    let c = level_classes(s);
    let pred = |x: (Seq<char>, Style, usize)| x.2 != 0;
    let kept = c.filter(pred);
    c.lemma_filter_pred(pred, k);
    assert(kept.contains(kept[k]));
    c.lemma_filter_contains_rev(pred, kept[k]);
    let a = choose|a: int| 0 <= a < c.len() && c[a] == kept[k];
    assert(c.len() == 4);
}

/// The largest of the four level counts, at least 1.
pub open spec fn largest_count(s: AnalysisSummary) -> usize {
    let m = if s.error_count >= s.warn_count && s.error_count >= s.info_count && s.error_count
        >= s.debug_count {
        s.error_count
    } else if s.warn_count >= s.info_count && s.warn_count >= s.debug_count {
        s.warn_count
    } else if s.info_count >= s.debug_count {
        s.info_count
    } else {
        s.debug_count
    };
    if m == 0 {
        1
    } else {
        m
    }
}

/// Each row of the level breakdown is labelled with one of the four classes and carries
/// that class's count of the summary, which is not zero, and a 30-cell bar of that count
/// against the largest count.
pub proof fn law_level_rows_counts(s: AnalysisSummary)
    ensures
        forall|k: int|
            0 <= k < level_rows_of(s).len() ==> (#[trigger] level_rows_of(s)[k]).1 > 0 && level_rows_of(s)[k].1
                == count_named(s, level_rows_of(s)[k].0.text) && level_rows_of(s)[k].2 == bar_view(
                level_rows_of(s)[k].1,
                largest_count(s),
                30,
            ),
{
    let c = level_classes(s);
    let pred = |x: (Seq<char>, Style, usize)| x.2 != 0;
    let kept = c.filter(pred);
    let rows = level_rows_of(s);
    lemma_labels_distinct(s);
    assert forall|k: int| 0 <= k < rows.len() implies (#[trigger] rows[k]).1 > 0 && rows[k].1 == count_named(
        s,
        rows[k].0.text,
    ) by {
        lemma_kept_is_class(s, k);
        let a = choose|a: int| 0 <= a < 4 && kept[k] == #[trigger] c[a];
        assert(rows[k].0.text == kept[k].0 && rows[k].1 == kept[k].2);
    }
}

proof fn lemma_level_row_present(s: AnalysisSummary, a: int)
    requires
        0 <= a < 4,
    ensures
        (count_named(s, level_classes(s)[a].0) > 0) == (exists|k: int|
            0 <= k < level_rows_of(s).len() && (#[trigger] level_rows_of(s)[k]).0.text == level_classes(s)[a].0),
{
    let c = level_classes(s);
    let pred = |x: (Seq<char>, Style, usize)| x.2 != 0;
    let kept = c.filter(pred);
    let rows = level_rows_of(s);
    lemma_labels_distinct(s);
    assert(c.len() == 4);
    if c[a].2 != 0 {
        c.lemma_filter_contains(pred, a);
        let k = choose|k: int| 0 <= k < kept.len() && kept[k] == c[a];
        assert(rows[k].0.text == kept[k].0);
    }
    if exists|k: int| 0 <= k < rows.len() && (#[trigger] rows[k]).0.text == c[a].0 {
        let k = choose|k: int| 0 <= k < rows.len() && (#[trigger] rows[k]).0.text == c[a].0;
        assert(rows[k].0.text == kept[k].0);
        lemma_kept_is_class(s, k);
        let b = choose|b: int| 0 <= b < 4 && kept[k] == #[trigger] c[b];
        assert(b == a);
    }
}

/// Errors, warnings, infos and debug lines each have a row in the level breakdown exactly
/// when the summary counts some of them.
pub proof fn law_level_row_present(s: AnalysisSummary)
    ensures
        (s.error_count > 0) == (exists|k: int|
            0 <= k < level_rows_of(s).len() && (#[trigger] level_rows_of(s)[k]).0.text == "ERROR"@),
        (s.warn_count > 0) == (exists|k: int|
            0 <= k < level_rows_of(s).len() && (#[trigger] level_rows_of(s)[k]).0.text == "WARN "@),
        (s.info_count > 0) == (exists|k: int|
            0 <= k < level_rows_of(s).len() && (#[trigger] level_rows_of(s)[k]).0.text == "INFO "@),
        (s.debug_count > 0) == (exists|k: int|
            0 <= k < level_rows_of(s).len() && (#[trigger] level_rows_of(s)[k]).0.text == "DEBUG"@),
{
    lemma_labels_distinct(s);
    lemma_level_row_present(s, 0);
    lemma_level_row_present(s, 1);
    lemma_level_row_present(s, 2);
    lemma_level_row_present(s, 3);
}

/// A line that is not a JSON object and matches the standard layout ("date time LEVEL
/// message") takes its time, level word and message from the layout's three groups; any
/// other line keeps its whole trimmed text as message, has no time, and takes its level
/// from the first level word found in it (`Unknown` when there is none).
pub proof fn law_line_shapes(raw: Seq<char>)
    requires
        !(trimmed(raw).len() > 0 && trimmed(raw)[0] == '{' && json_fields_of(trimmed(raw)) is Some),
    ensures
        ({
            let t = trimmed(raw);
            let e = parsed(raw);
            let g = regex_captures_of(STANDARD_PATTERN@, t);
            let w = regex_captures_of(LEVEL_PATTERN@, t);
            &&& e.raw == t
            &&& e.source is None
            &&& (g is Some && g->0.len() >= 4 && g->0[1] is Some && g->0[2] is Some && g->0[3] is Some) ==> {
                &&& e.message == g->0[3]->0
                &&& e.level == level_of(g->0[2]->0)
                &&& e.timestamp == timestamp_of(g->0[1]->0)
            }
            &&& !(g is Some && g->0.len() >= 4 && g->0[1] is Some && g->0[2] is Some && g->0[3] is Some)
                ==> {
                &&& e.message == t
                &&& e.timestamp is None
                &&& (w is Some && w->0.len() >= 2 && w->0[1] is Some) ==> e.level == level_of(w->0[1]->0)
                &&& !(w is Some && w->0.len() >= 2 && w->0[1] is Some) ==> e.level == LogLevel::Unknown
            }
        }),
{
}

/// A `--tail` of `n` looks at the last `n` lines (all of them when there are fewer), in
/// their order; without it, at all lines.
pub proof fn law_tail_window(lines: Seq<Seq<char>>, tail: Option<usize>)
    ensures
        tail is None ==> window(lines, tail) == lines,
        tail is Some ==> {
            let w = window(lines, tail);
            let n = tail->0 as int;
            &&& w.len() == if n < lines.len() { n } else { lines.len() as int }
            &&& forall|i: int| 0 <= i < w.len() ==> #[trigger] w[i] == lines[lines.len() - w.len() + i]
        },
{
}

/// The errors (warnings) a `read` counts are the lines of its window whose entry ranks as
/// an error or a fatal (a warning), shown or not.
pub proof fn law_read_counts(lines: Seq<Seq<char>>, lo: u8, hi: u8)
    ensures
        rank_count(lines, lo, hi) == lines.map_values(|l: Seq<char>| parsed(l)).filter(
            |e: EntryView| lo <= e.level.rank() <= hi,
        ).len(),
    decreases lines.len(),
{
    reveal_with_fuel(Seq::filter, 1);
    let pl = lines.map_values(|l: Seq<char>| parsed(l));
    if lines.len() > 0 {
        law_read_counts(lines.drop_last(), lo, hi);
        assert(pl.drop_last() =~= lines.drop_last().map_values(|l: Seq<char>| parsed(l)));
        assert(pl.last() == parsed(lines.last()));
    } else {
        assert(pl =~= Seq::<EntryView>::empty());
    }
}

} // verus!
