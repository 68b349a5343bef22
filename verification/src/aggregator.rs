//! One pass over the entries: level counts, time span, repeated messages and
//! per-interval activity.

use vstd::prelude::*;
use crate::parser::{LogEntry, EntryView, LogLevel};
use crate::timestamp::{Timestamp, ts_min, ts_max};
use crate::ranking::{SortKey, key_lt, sorted_order_of, sort_indexed};
use crate::text::str_eq;
use std::collections::HashMap;
use vstd::std_specs::iter::IteratorSpec;
use vstd::std_specs::hash::spec_hash_map_iter;

verus! {

/// The level classes that the summary counts.
pub enum Class {
    /// `Error` and `Fatal`.
    Errors,
    /// `Warn`.
    Warnings,
    /// `Info`.
    Infos,
    /// `Debug` and `Trace`.
    Debugs,
}

pub open spec fn in_class(l: LogLevel, c: Class) -> bool {
    match c {
        Class::Errors => l == LogLevel::Error || l == LogLevel::Fatal,
        Class::Warnings => l == LogLevel::Warn,
        Class::Infos => l == LogLevel::Info,
        Class::Debugs => l == LogLevel::Debug || l == LogLevel::Trace,
    }
}

/// Number of entries of a class.
pub open spec fn count_in(es: Seq<EntryView>, c: Class) -> nat
    decreases es.len(),
{
    if es.len() == 0 {
        0
    } else {
        count_in(es.drop_last(), c) + if in_class(es.last().level, c) {
            1nat
        } else {
            0nat
        }
    }
}

/// Earliest timestamp among the entries.
pub open spec fn earliest_of(es: Seq<EntryView>) -> Option<Timestamp>
    decreases es.len(),
{
    if es.len() == 0 {
        None
    } else {
        let p = earliest_of(es.drop_last());
        match es.last().timestamp {
            None => p,
            Some(t) => match p {
                None => Some(t),
                Some(e) => Some(ts_min(e, t)),
            },
        }
    }
}

/// Latest timestamp among the entries.
pub open spec fn latest_of(es: Seq<EntryView>) -> Option<Timestamp>
    decreases es.len(),
{
    if es.len() == 0 {
        None
    } else {
        let p = latest_of(es.drop_last());
        match es.last().timestamp {
            None => p,
            Some(t) => match p {
                None => Some(t),
                Some(l) => Some(ts_max(l, t)),
            },
        }
    }
}

/// The entry belongs to the group of message `m` within class `c`.
pub open spec fn in_group(e: EntryView, c: Class, m: Seq<char>) -> bool {
    in_class(e.level, c) && e.message == m
}

/// Number of entries in a group.
pub open spec fn group_count(es: Seq<EntryView>, c: Class, m: Seq<char>) -> nat
    decreases es.len(),
{
    if es.len() == 0 {
        0
    } else {
        group_count(es.drop_last(), c, m) + if in_group(es.last(), c, m) {
            1nat
        } else {
            0nat
        }
    }
}

/// Earliest timestamp in a group.
pub open spec fn group_first(es: Seq<EntryView>, c: Class, m: Seq<char>) -> Option<Timestamp>
    decreases es.len(),
{
    if es.len() == 0 {
        None
    } else {
        let p = group_first(es.drop_last(), c, m);
        let e = es.last();
        if in_group(e, c, m) && e.timestamp is Some {
            match p {
                None => e.timestamp,
                Some(f) => Some(ts_min(f, e.timestamp->0)),
            }
        } else {
            p
        }
    }
}

/// Latest timestamp in a group.
pub open spec fn group_last(es: Seq<EntryView>, c: Class, m: Seq<char>) -> Option<Timestamp>
    decreases es.len(),
{
    if es.len() == 0 {
        None
    } else {
        let p = group_last(es.drop_last(), c, m);
        let e = es.last();
        if in_group(e, c, m) && e.timestamp is Some {
            match p {
                None => e.timestamp,
                Some(l) => Some(ts_max(l, e.timestamp->0)),
            }
        } else {
            p
        }
    }
}

/// Position of the first entry of a group (`es.len()` when the group is empty).
pub open spec fn first_pos(es: Seq<EntryView>, c: Class, m: Seq<char>) -> int
    decreases es.len(),
{
    if es.len() == 0 {
        0
    } else {
        let p = first_pos(es.drop_last(), c, m);
        if p < es.len() - 1 {
            p
        } else if in_group(es.last(), c, m) {
            es.len() - 1
        } else {
            es.len() as int
        }
    }
}

/// A group of repeated messages, with its strings as character sequences.
pub struct GroupView {
    pub message: Seq<char>,
    pub count: usize,
    pub first_seen: Option<Timestamp>,
    pub last_seen: Option<Timestamp>,
}

/// The group holds exactly what the entries say of its message.
pub open spec fn group_matches(g: GroupView, es: Seq<EntryView>, c: Class) -> bool {
    &&& g.count == group_count(es, c, g.message)
    &&& g.first_seen == group_first(es, c, g.message)
    &&& g.last_seen == group_last(es, c, g.message)
}

/// Group `m1` ranks before group `m2`: more entries, or as many and seen first.
pub open spec fn rank_before(es: Seq<EntryView>, c: Class, m1: Seq<char>, m2: Seq<char>) -> bool {
    group_count(es, c, m1) > group_count(es, c, m2) || (group_count(es, c, m1) == group_count(
        es,
        c,
        m2,
    ) && first_pos(es, c, m1) < first_pos(es, c, m2))
}

/// `r` holds the `n` highest-ranked groups of class `c` (all of them when there are fewer),
/// best first.
pub open spec fn top_groups(r: Seq<GroupView>, es: Seq<EntryView>, c: Class, n: nat) -> bool {
    &&& r.len() <= n
    &&& forall|p: int|
        0 <= p < r.len() ==> group_matches(#[trigger] r[p], es, c) && group_count(es, c, r[p].message)
            > 0
    &&& forall|p: int, q: int|
        0 <= p < q < r.len() ==> rank_before(es, c, (#[trigger] r[p]).message, (#[trigger] r[q]).message)
    &&& forall|m: Seq<char>|
        #![trigger group_count(es, c, m)]
        group_count(es, c, m) > 0 && !r.map_values(|g: GroupView| g.message).contains(m) ==> r.len()
            == n && forall|p: int| 0 <= p < r.len() ==> rank_before(es, c, (#[trigger] r[p]).message, m)
}

/// A run of repeated error or warning messages.
pub struct ErrorGroup {
    pub message: String,
    pub count: usize,
    pub first_seen: Option<Timestamp>,
    pub last_seen: Option<Timestamp>,
}

impl View for ErrorGroup {
    type V = GroupView;

    open spec fn view(&self) -> GroupView {
        GroupView {
            message: self.message@,
            count: self.count,
            first_seen: self.first_seen,
            last_seen: self.last_seen,
        }
    }
}

pub open spec fn group_views(v: Seq<ErrorGroup>) -> Seq<GroupView> {
    v.map_values(|g: ErrorGroup| g@)
}

impl ErrorGroup {
    pub fn copy(&self) -> (r: ErrorGroup)
        ensures
            r@ == self@,
    {
        ErrorGroup {
            message: self.message.clone(),
            count: self.count,
            first_seen: self.first_seen,
            last_seen: self.last_seen,
        }
    }
}

/// How many events fell into one interval.
#[derive(Clone, Copy, Debug, PartialEq, Eq, Structural)]
pub struct TimeBucket {
    pub start: Timestamp,
    pub errors: usize,
    pub warns: usize,
    pub total: usize,
}

/// Start (in Unix seconds) of the interval of `width` seconds that holds second `secs`:
/// the multiple of `width` at or before it, intervals being counted from the epoch.
pub open spec fn bucket_start(secs: i64, width: int) -> int {
    (secs as int / width) * width
}

/// Every timestamped entry's interval starts at a second that an `i64` can hold.
pub open spec fn starts_fit(es: Seq<EntryView>, width: int) -> bool {
    forall|i: int|
        0 <= i < es.len() && (#[trigger] es[i]).timestamp is Some ==> bucket_start(
            es[i].timestamp->0.secs,
            width,
        ) >= i64::MIN
}

/// A second lies in the interval that `bucket_start` gives it.
pub proof fn lemma_bucket_start(secs: i64, width: int)
    requires
        width > 0,
    ensures
        bucket_start(secs, width) <= secs < bucket_start(secs, width) + width,
        bucket_start(secs, width) % width == 0,
{
    let a = secs as int;
    vstd::arithmetic::div_mod::lemma_fundamental_div_mod(a, width);
    vstd::arithmetic::div_mod::lemma_mod_bound(a, width);
    vstd::arithmetic::div_mod::lemma_mod_multiples_basic(a / width, width);
    assert((a / width) * width == width * (a / width)) by (nonlinear_arith);
}

/// The entry has a timestamp within the interval starting at `b`.
pub open spec fn in_bucket(e: EntryView, width: int, b: int) -> bool {
    e.timestamp is Some && bucket_start(e.timestamp->0.secs, width) == b
}

/// Entries in the interval starting at `b`; of them, those of class `c` when `c` is given.
pub open spec fn bucket_count(es: Seq<EntryView>, width: int, b: int, c: Option<Class>) -> nat
    decreases es.len(),
{
    if es.len() == 0 {
        0
    } else {
        bucket_count(es.drop_last(), width, b, c) + if in_bucket(es.last(), width, b) && match c {
            Some(cl) => in_class(es.last().level, cl),
            None => true,
        } {
            1nat
        } else {
            0nat
        }
    }
}

/// The bucket holds exactly what the entries say of its interval.
pub open spec fn bucket_matches(t: TimeBucket, es: Seq<EntryView>, width: int) -> bool {
    let b = t.start.secs as int;
    &&& t.start.nanos == 0
    &&& t.total == bucket_count(es, width, b, None) && t.total > 0
    &&& t.errors == bucket_count(es, width, b, Some(Class::Errors))
    &&& t.warns == bucket_count(es, width, b, Some(Class::Warnings))
}

/// `r` holds one bucket for each interval in which an entry has its timestamp, in time order.
pub open spec fn buckets_of(r: Seq<TimeBucket>, es: Seq<EntryView>, width: int) -> bool {
    &&& forall|k: int| 0 <= k < r.len() ==> bucket_matches(#[trigger] r[k], es, width)
    &&& forall|k: int, j: int| 0 <= k < j < r.len() ==> (#[trigger] r[k]).start.secs < (#[trigger] r[j]).start.secs
    &&& forall|i: int|
        0 <= i < es.len() && (#[trigger] es[i]).timestamp is Some ==> exists|k: int|
            0 <= k < r.len() && #[trigger] r[k].start.secs == bucket_start(es[i].timestamp->0.secs, width)
}

/// Position of the bucket with the most errors among the first `k`, the last such one on a tie.
pub open spec fn spike_pos(r: Seq<TimeBucket>, k: int) -> Option<int>
    decreases k,
{
    if k <= 0 {
        None
    } else {
        match spike_pos(r, k - 1) {
            None => Some(k - 1),
            Some(p) => if r[k - 1].errors >= r[p].errors {
                Some(k - 1)
            } else {
                Some(p)
            },
        }
    }
}

/// Start and error count of the busiest interval, `(None, 0)` when there are none.
pub open spec fn spike_of(r: Seq<TimeBucket>) -> (Option<Timestamp>, usize) {
    match spike_pos(r, r.len() as int) {
        Some(p) => (Some(r[p].start), r[p].errors),
        None => (None, 0),
    }
}


/// Everything the report shows about a set of entries.
pub struct AnalysisSummary {
    pub total_lines: usize,
    pub error_count: usize,
    pub warn_count: usize,
    pub info_count: usize,
    pub debug_count: usize,
    pub earliest: Option<Timestamp>,
    pub latest: Option<Timestamp>,
    pub top_errors: Vec<ErrorGroup>,
    pub top_warns: Vec<ErrorGroup>,
    pub time_buckets: Vec<TimeBucket>,
    pub spike_at: Option<Timestamp>,
    pub spike_count: usize,
}

/// The entries as views.
pub open spec fn entry_views(v: Seq<LogEntry>) -> Seq<EntryView> {
    v.map_values(|e: LogEntry| e@)
}

/// `s` is the summary of the entries `es`, with buckets `width` seconds wide and
/// `n` groups kept in each list of repeated messages.
pub open spec fn summarizes(s: AnalysisSummary, es: Seq<EntryView>, width: int, n: nat) -> bool {
    &&& s.total_lines == es.len()
    &&& s.error_count == count_in(es, Class::Errors)
    &&& s.warn_count == count_in(es, Class::Warnings)
    &&& s.info_count == count_in(es, Class::Infos)
    &&& s.debug_count == count_in(es, Class::Debugs)
    &&& s.earliest == earliest_of(es)
    &&& s.latest == latest_of(es)
    &&& top_groups(group_views(s.top_errors@), es, Class::Errors, n)
    &&& top_groups(group_views(s.top_warns@), es, Class::Warnings, n)
    &&& buckets_of(s.time_buckets@, es, width)
    &&& (s.spike_at, s.spike_count) == spike_of(s.time_buckets@)
}

/// Finds the busiest bucket: the last one with the most errors.
pub fn find_spike(buckets: &Vec<TimeBucket>) -> (r: (Option<Timestamp>, usize))
    ensures
        r == spike_of(buckets@),
{
    let n = buckets.len();
    let mut best: Option<usize> = None;
    let mut i: usize = 0;
    while i < n
        invariant
            i <= n,
            n == buckets@.len(),
            match best {
                Some(b) => spike_pos(buckets@, i as int) == Some(b as int) && b < i,
                None => spike_pos(buckets@, i as int) is None && i == 0,
            },
        decreases n - i,
    {
        best = match best {
            None => Some(i),
            Some(b) => if buckets[i].errors >= buckets[b].errors {
                Some(i)
            } else {
                Some(b)
            },
        };
        i = i + 1;
    }
    match best {
        Some(b) => (Some(buckets[b].start), buckets[b].errors),
        None => (None, 0),
    }
}

proof fn lemma_push(es: Seq<EntryView>, e: EntryView)
    ensures
        es.push(e).drop_last() == es,
        es.push(e).last() == e,
        es.push(e).len() == es.len() + 1,
{
    assert(es.push(e).drop_last() =~= es);
}

/// Facts about a group's first position and count.
proof fn lemma_first_pos(es: Seq<EntryView>, c: Class, m: Seq<char>)
    ensures
        0 <= first_pos(es, c, m) <= es.len(),
        group_count(es, c, m) <= es.len(),
        (first_pos(es, c, m) < es.len()) == (group_count(es, c, m) > 0),
        first_pos(es, c, m) < es.len() ==> in_group(es[first_pos(es, c, m)], c, m),
        forall|i: int| 0 <= i < es.len() && in_group(#[trigger] es[i], c, m) ==> first_pos(es, c, m) <= i,
        group_count(es, c, m) == 0 ==> group_first(es, c, m) is None && group_last(es, c, m) is None,
    decreases es.len(),
{
    if es.len() > 0 {
        let d = es.drop_last();
        lemma_first_pos(d, c, m);
        assert forall|i: int| 0 <= i < es.len() && in_group(#[trigger] es[i], c, m) implies first_pos(
            es,
            c,
            m,
        ) <= i by {
            if i < es.len() - 1 {
                assert(es[i] == d[i]);
            }
        }
        if first_pos(d, c, m) < d.len() {
            assert(es[first_pos(d, c, m)] == d[first_pos(d, c, m)]);
        }
    }
}

/// Number of entries of a class, or of a bucket, is at most the number of entries.
proof fn lemma_counts_bounded(es: Seq<EntryView>, width: int, b: int, c: Option<Class>, k: Class)
    ensures
        bucket_count(es, width, b, c) <= es.len(),
        count_in(es, k) <= es.len(),
    decreases es.len(),
{
    if es.len() > 0 {
        lemma_counts_bounded(es.drop_last(), width, b, c, k);
    }
}

/// A bucket with no entries has none of any class; one with entries has an entry in it.
pub proof fn lemma_bucket_empty(es: Seq<EntryView>, width: int, b: int)
    ensures
        bucket_count(es, width, b, None) == 0 ==> bucket_count(es, width, b, Some(Class::Errors)) == 0
            && bucket_count(es, width, b, Some(Class::Warnings)) == 0,
        bucket_count(es, width, b, None) > 0 ==> exists|i: int|
            0 <= i < es.len() && in_bucket(#[trigger] es[i], width, b),
    decreases es.len(),
{
    if es.len() > 0 {
        let d = es.drop_last();
        lemma_bucket_empty(d, width, b);
        if bucket_count(d, width, b, None) > 0 {
            let i = choose|i: int| 0 <= i < d.len() && in_bucket(#[trigger] d[i], width, b);
            assert(es[i] == d[i]);
        } else if bucket_count(es, width, b, None) > 0 {
            assert(in_bucket(es[es.len() - 1], width, b));
        }
    }
}

/// The groups collected so far: each holds what the entries say of it, they are in order of
/// first appearance, and every message of the class has one.
pub open spec fn groups_wf(gs: Seq<GroupView>, es: Seq<EntryView>, c: Class) -> bool {
    &&& forall|k: int|
        0 <= k < gs.len() ==> group_matches(#[trigger] gs[k], es, c) && group_count(es, c, gs[k].message)
            > 0
    &&& forall|k: int, j: int|
        0 <= k < j < gs.len() ==> first_pos(es, c, (#[trigger] gs[k]).message) < first_pos(
            es,
            c,
            (#[trigger] gs[j]).message,
        )
    &&& forall|i: int|
        0 <= i < es.len() && in_class((#[trigger] es[i]).level, c) ==> exists|k: int|
            0 <= k < gs.len() && #[trigger] gs[k].message == es[i].message
}

/// The buckets collected so far, in no particular order.
pub open spec fn buckets_wf(bs: Seq<TimeBucket>, es: Seq<EntryView>, width: int) -> bool {
    &&& forall|k: int| 0 <= k < bs.len() ==> bucket_matches(#[trigger] bs[k], es, width)
    &&& forall|k: int, j: int| 0 <= k < j < bs.len() ==> (#[trigger] bs[k]).start.secs != (#[trigger] bs[j]).start.secs
    &&& forall|i: int|
        0 <= i < es.len() && (#[trigger] es[i]).timestamp is Some ==> exists|k: int|
            0 <= k < bs.len() && #[trigger] bs[k].start.secs == bucket_start(es[i].timestamp->0.secs, width)
}

proof fn lemma_groups_skip(gs: Seq<GroupView>, es: Seq<EntryView>, e: EntryView, c: Class)
    requires
        groups_wf(gs, es, c),
        !in_class(e.level, c),
    ensures
        groups_wf(gs, es.push(e), c),
{
    lemma_push(es, e);
    let es2 = es.push(e);
    assert forall|k: int| 0 <= k < gs.len() implies group_matches(#[trigger] gs[k], es2, c)
        && group_count(es2, c, gs[k].message) > 0 by {
        lemma_first_pos(es, c, gs[k].message);
    }
    assert forall|k: int, j: int| 0 <= k < j < gs.len() implies first_pos(
        es2,
        c,
        (#[trigger] gs[k]).message,
    ) < first_pos(es2, c, (#[trigger] gs[j]).message) by {
        lemma_first_pos(es, c, gs[k].message);
        lemma_first_pos(es, c, gs[j].message);
    }
    assert forall|i: int| 0 <= i < es2.len() && in_class((#[trigger] es2[i]).level, c) implies exists|
        k: int,
    | 0 <= k < gs.len() && #[trigger] gs[k].message == es2[i].message by {
        assert(es2[i] == es[i]);
    }
}

/// The buckets collected so far, each stored under the second at which it starts; every
/// timestamped entry has the bucket of its interval.
pub open spec fn bucket_map_wf(m: Map<i64, TimeBucket>, es: Seq<EntryView>, width: int) -> bool {
    &&& forall|k: i64| #[trigger] m.contains_key(k) ==> m[k].start.secs == k && bucket_matches(m[k], es, width)
    &&& forall|i: int|
        0 <= i < es.len() && (#[trigger] es[i]).timestamp is Some ==> m.contains_key(
            bucket_start(es[i].timestamp->0.secs, width) as i64,
        )
}

proof fn lemma_map_skip(m: Map<i64, TimeBucket>, es: Seq<EntryView>, e: EntryView, width: int)
    requires
        bucket_map_wf(m, es, width),
        e.timestamp is None,
    ensures
        bucket_map_wf(m, es.push(e), width),
{
    lemma_push(es, e);
    let es2 = es.push(e);
    assert forall|i: int| 0 <= i < es2.len() && (#[trigger] es2[i]).timestamp is Some implies m.contains_key(
        bucket_start(es2[i].timestamp->0.secs, width) as i64,
    ) by {
        assert(es2[i] == es[i]);
    }
}

/// The buckets of a map, in the order the map hands them out.
fn collect_buckets(
    m: &HashMap<i64, TimeBucket>,
    Ghost(es): Ghost<Seq<EntryView>>,
    Ghost(width): Ghost<int>,
) -> (r: Vec<TimeBucket>)
    requires
        bucket_map_wf(m@, es, width),
        starts_fit(es, width),
        width > 0,
    ensures
        buckets_wf(r@, es, width),
{
    broadcast use vstd::std_specs::hash::group_hash_axioms;

    let mut out: Vec<TimeBucket> = Vec::new();
    let ghost v = spec_hash_map_iter(m).remaining();
    for pair in it: m.iter()
        invariant
            it.seq() == v,
            out@.len() == it.index(),
            forall|j: int| 0 <= j < it.index() ==> #[trigger] out@[j] == *v[j].1,
    {
        out.push(*pair.1);
    }
    proof {
        let r = out@;
        assert(r.len() == v.len());
        assert forall|k: int| 0 <= k < r.len() implies bucket_matches(#[trigger] r[k], es, width) by {
            assert(r[k] == *v[k].1);
            assert(m@.contains_key(*v[k].0) && m@[*v[k].0] == *v[k].1);
        }
        assert forall|k: int, j: int| 0 <= k < j < r.len() implies (#[trigger] r[k]).start.secs != (#[trigger] r[j]).start.secs by {
            assert(r[k] == *v[k].1);
            assert(r[j] == *v[j].1);
            assert(m@.contains_key(*v[k].0) && m@[*v[k].0] == *v[k].1);
            assert(m@.contains_key(*v[j].0) && m@[*v[j].0] == *v[j].1);
            assert(v[k] != v[j]);
        }
        assert forall|i: int|
            0 <= i < es.len() && (#[trigger] es[i]).timestamp is Some implies exists|k: int|
                0 <= k < r.len() && #[trigger] r[k].start.secs == bucket_start(es[i].timestamp->0.secs, width) by {
            let b = bucket_start(es[i].timestamp->0.secs, width);
            lemma_bucket_start(es[i].timestamp->0.secs, width);
            let kb = b as i64;
            assert(m@.contains_key(kb));
            assert(v.contains((&kb, &m@[kb])));
            let k = choose|k: int| 0 <= k < v.len() && v[k] == (&kb, &m@[kb]);
            assert(r[k] == *v[k].1);
        }
    }
    out
}

/// Whole-minute buckets and the number of groups kept in each list.
pub struct Aggregator {
    bucket_minutes: i64,
    top_n: usize,
}

impl Aggregator {
    #[verifier::type_invariant]
    spec fn inv(self) -> bool {
        1 <= self.bucket_minutes <= i64::MAX / 60
    }

    /// Width of a time bucket, in seconds.
    pub closed spec fn bucket_width(&self) -> int {
        self.bucket_minutes * 60
    }

    /// Number of groups kept in each list of repeated messages.
    pub closed spec fn top_count(&self) -> nat {
        self.top_n as nat
    }

    pub fn new() -> (r: Aggregator)
        ensures
            r.bucket_width() == 60,
            r.top_count() == 5,
    {
        Aggregator { bucket_minutes: 1, top_n: 5 }
    }

    /// Start of the bucket that holds second `secs`.
    fn bucket_of(&self, secs: i64) -> (r: i64)
        requires
            bucket_start(secs, self.bucket_width()) >= i64::MIN,
        ensures
            r == bucket_start(secs, self.bucket_width()),
    {
        proof {
            use_type_invariant(self);
        }
        let w: i64 = self.bucket_minutes * 60;
        let q: i64 = match secs.checked_div_euclid(w) {
            Some(q) => q,
            None => 0,
        };
        proof {
            lemma_bucket_start(secs, w as int);
            let a = secs as int;
            let wi = w as int;
            let fq = a / wi;
            assert(i64::MIN <= fq <= i64::MAX) by (nonlinear_arith)
                requires
                    fq * wi <= a < fq * wi + wi,
                    wi >= 60,
                    i64::MIN <= a <= i64::MAX,
            ;
        }
        q * w
    }

    /// Counts one entry with a timestamp into the bucket of its interval.
    fn update_bucket(
        &self,
        buckets: &mut HashMap<i64, TimeBucket>,
        entry: &LogEntry,
        Ghost(es): Ghost<Seq<EntryView>>,
    )
        requires
            bucket_map_wf(old(buckets)@, es, self.bucket_width()),
            entry.timestamp is Some,
            bucket_start(entry.timestamp->0.secs, self.bucket_width()) >= i64::MIN,
            es.len() < usize::MAX,
        ensures
            bucket_map_wf(final(buckets)@, es.push(entry@), self.bucket_width()),
    {
        broadcast use vstd::std_specs::hash::group_hash_axioms;

        let ghost e = entry@;
        let ghost m0 = buckets@;
        let ghost es2 = es.push(e);
        let ghost w = self.bucket_width();
        proof {
            lemma_push(es, e);
            use_type_invariant(self);
        }
        let ts = match entry.timestamp {
            Some(t) => t,
            None => Timestamp { secs: 0, nanos: 0 },
        };
        let b = self.bucket_of(ts.secs);
        let is_err = entry.level == LogLevel::Error || entry.level == LogLevel::Fatal;
        let is_warn = entry.level == LogLevel::Warn;
        let nb = match buckets.get(&b) {
            Some(ob) => {
                proof {
                    lemma_counts_bounded(es, w, b as int, None, Class::Errors);
                    lemma_counts_bounded(es, w, b as int, Some(Class::Errors), Class::Errors);
                    lemma_counts_bounded(es, w, b as int, Some(Class::Warnings), Class::Errors);
                    assert(m0.contains_key(b) && m0[b] == *ob);
                }
                TimeBucket {
                    start: ob.start,
                    errors: if is_err { ob.errors + 1 } else { ob.errors },
                    warns: if is_warn { ob.warns + 1 } else { ob.warns },
                    total: ob.total + 1,
                }
            },
            None => {
                proof {
                    assert(!m0.contains_key(b));
                    lemma_bucket_empty(es, w, b as int);
                    if bucket_count(es, w, b as int, None) > 0 {
                        let i = choose|i: int| 0 <= i < es.len() && in_bucket(#[trigger] es[i], w, b as int);
                        assert(m0.contains_key(bucket_start(es[i].timestamp->0.secs, w) as i64));
                    }
                }
                TimeBucket {
                    start: Timestamp { secs: b, nanos: 0 },
                    errors: if is_err { 1 } else { 0 },
                    warns: if is_warn { 1 } else { 0 },
                    total: 1,
                }
            },
        };
        buckets.insert(b, nb);
        proof {
            let m2 = buckets@;
            assert(m2 == m0.insert(b, nb));
            assert forall|k: i64| #[trigger] m2.contains_key(k) implies m2[k].start.secs == k && bucket_matches(
                m2[k],
                es2,
                w,
            ) by {
                if k != b {
                    assert(m0.contains_key(k));
                }
            }
            assert forall|i: int| 0 <= i < es2.len() && (#[trigger] es2[i]).timestamp is Some implies m2.contains_key(
                bucket_start(es2[i].timestamp->0.secs, w) as i64,
            ) by {
                if i < es.len() {
                    assert(es2[i] == es[i]);
                }
            }
        }
    }

    /// Reads every entry once and sums up what it holds.
    pub fn analyze(&self, entries: &[LogEntry]) -> (r: AnalysisSummary)
        requires
            starts_fit(entry_views(entries@), self.bucket_width()),
        ensures
            summarizes(r, entry_views(entries@), self.bucket_width(), self.top_count()),
    {
        let ghost ev = entry_views(entries@);
        let ghost w = self.bucket_width();
        let n = entries.len();
        let mut total: usize = 0;
        let mut errors: usize = 0;
        let mut warns: usize = 0;
        let mut infos: usize = 0;
        let mut debugs: usize = 0;
        let mut earliest: Option<Timestamp> = None;
        let mut latest: Option<Timestamp> = None;
        let mut error_groups: Vec<ErrorGroup> = Vec::new();
        let mut warn_groups: Vec<ErrorGroup> = Vec::new();
        let mut buckets: HashMap<i64, TimeBucket> = HashMap::new();
        let mut i: usize = 0;
        proof {
            assert(ev.take(0) =~= Seq::<EntryView>::empty());
        }
        while i < n
            invariant
                i <= n,
                n == entries@.len(),
                ev == entry_views(entries@),
                w == self.bucket_width(),
                starts_fit(ev, w),
                total == i,
                errors == count_in(ev.take(i as int), Class::Errors),
                warns == count_in(ev.take(i as int), Class::Warnings),
                infos == count_in(ev.take(i as int), Class::Infos),
                debugs == count_in(ev.take(i as int), Class::Debugs),
                earliest == earliest_of(ev.take(i as int)),
                latest == latest_of(ev.take(i as int)),
                groups_wf(group_views(error_groups@), ev.take(i as int), Class::Errors),
                groups_wf(group_views(warn_groups@), ev.take(i as int), Class::Warnings),
                bucket_map_wf(buckets@, ev.take(i as int), w),
            decreases n - i,
        {
            let entry = &entries[i];
            let ghost es = ev.take(i as int);
            proof {
                assert(ev.take(i + 1) =~= es.push(entry@));
                lemma_push(es, entry@);
                lemma_counts_bounded(es, 0, 0, None, Class::Errors);
                lemma_counts_bounded(es, 0, 0, None, Class::Warnings);
                lemma_counts_bounded(es, 0, 0, None, Class::Infos);
                lemma_counts_bounded(es, 0, 0, None, Class::Debugs);
            }
            total = total + 1;
            match entry.level {
                LogLevel::Error | LogLevel::Fatal => errors = errors + 1,
                LogLevel::Warn => warns = warns + 1,
                LogLevel::Info => infos = infos + 1,
                LogLevel::Debug | LogLevel::Trace => debugs = debugs + 1,
                LogLevel::Unknown => {},
            }
            if let Some(ts) = entry.timestamp {
                earliest = Some(
                    match earliest {
                        None => ts,
                        Some(e) => if ts.is_before(&e) {
                            ts
                        } else {
                            e
                        },
                    },
                );
                latest = Some(
                    match latest {
                        None => ts,
                        Some(l) => if l.is_before(&ts) {
                            ts
                        } else {
                            l
                        },
                    },
                );
                self.update_bucket(&mut buckets, entry, Ghost(es));
            } else {
                proof {
                    lemma_map_skip(buckets@, es, entry@, w);
                }
            }
            match entry.level {
                LogLevel::Error | LogLevel::Fatal => {
                    self.update_group(&mut error_groups, entry, Ghost(es), Ghost(Class::Errors));
                    proof {
                        lemma_groups_skip(group_views(warn_groups@), es, entry@, Class::Warnings);
                    }
                },
                LogLevel::Warn => {
                    self.update_group(&mut warn_groups, entry, Ghost(es), Ghost(Class::Warnings));
                    proof {
                        lemma_groups_skip(group_views(error_groups@), es, entry@, Class::Errors);
                    }
                },
                _ => {
                    proof {
                        lemma_groups_skip(group_views(warn_groups@), es, entry@, Class::Warnings);
                        lemma_groups_skip(group_views(error_groups@), es, entry@, Class::Errors);
                    }
                },
            }
            i = i + 1;
        }
        proof {
            assert(ev.take(n as int) =~= ev);
        }
        let top_errors = self.select_top(&error_groups, Ghost(ev), Ghost(Class::Errors));
        let top_warns = self.select_top(&warn_groups, Ghost(ev), Ghost(Class::Warnings));
        proof {
            use_type_invariant(self);
        }
        let collected = collect_buckets(&buckets, Ghost(ev), Ghost(w));
        let time_buckets = self.sort_buckets(&collected, Ghost(ev));
        let (spike_at, spike_count) = find_spike(&time_buckets);
        AnalysisSummary {
            total_lines: total,
            error_count: errors,
            warn_count: warns,
            info_count: infos,
            debug_count: debugs,
            earliest,
            latest,
            top_errors,
            top_warns,
            time_buckets,
            spike_at,
            spike_count,
        }
    }

    /// The `top_count` highest-ranked groups, best first.
    fn select_top(
        &self,
        groups: &Vec<ErrorGroup>,
        Ghost(es): Ghost<Seq<EntryView>>,
        Ghost(c): Ghost<Class>,
    ) -> (r: Vec<ErrorGroup>)
        requires
            groups_wf(group_views(groups@), es, c),
        ensures
            top_groups(group_views(r@), es, c, self.top_count()),
    {
        let ghost gs = group_views(groups@);
        let n = groups.len();
        let mut keys: Vec<SortKey> = Vec::new();
        let mut k: usize = 0;
        while k < n
            invariant
                k <= n,
                n == groups@.len(),
                keys@.len() == k,
                forall|j: int|
                    0 <= j < k ==> #[trigger] keys@[j] == (
                        (u64::MAX - groups@[j].count) as u64,
                        0i64,
                        0u64,
                        j as u64,
                    ),
            decreases n - k,
        {
            keys.push((u64::MAX - groups[k].count as u64, 0, 0, k as u64));
            k = k + 1;
        }
        let ghost kv = keys@;
        let order = sort_indexed(keys);
        let take = if self.top_n < n { self.top_n } else { n };
        let mut r: Vec<ErrorGroup> = Vec::new();
        let mut p: usize = 0;
        while p < take
            invariant
                p <= take <= n,
                n == groups@.len(),
                gs == group_views(groups@),
                sorted_order_of(order@, kv),
                kv.len() == n,
                r@.len() == p,
                forall|q: int|
                    0 <= q < p ==> #[trigger] r@[q]@ == groups@[order@[q].3 as int]@,
            decreases take - p,
        {
            let idx = order[p].3 as usize;
            r.push(groups[idx].copy());
            p = p + 1;
        }
        proof {
            let rv = group_views(r@);
            let n0 = self.top_count();
            assert forall|q: int| 0 <= q < rv.len() implies group_matches(#[trigger] rv[q], es, c)
                && group_count(es, c, rv[q].message) > 0 by {
                assert(rv[q] == gs[order@[q].3 as int]);
            }
            assert forall|q1: int, q2: int| 0 <= q1 < q2 < rv.len() implies rank_before(
                es,
                c,
                (#[trigger] rv[q1]).message,
                (#[trigger] rv[q2]).message,
            ) by {
                let i = order@[q1].3 as int;
                let j = order@[q2].3 as int;
                assert(key_lt(order@[q1], order@[q2]));
                assert(kv[i] == order@[q1]);
                assert(kv[j] == order@[q2]);
                assert(rv[q1] == gs[i]);
                assert(rv[q2] == gs[j]);
                if i > j {
                    assert(first_pos(es, c, gs[j].message) < first_pos(es, c, gs[i].message));
                } else if i < j {
                    assert(first_pos(es, c, gs[i].message) < first_pos(es, c, gs[j].message));
                }
            }
            assert forall|m: Seq<char>|
                #![trigger group_count(es, c, m)]
                group_count(es, c, m) > 0 && !rv.map_values(|g: GroupView| g.message).contains(m) implies rv.len()
                    == n0 && forall|q: int| 0 <= q < rv.len() ==> rank_before(es, c, (#[trigger] rv[q]).message, m) by {
                lemma_first_pos(es, c, m);
                let i0 = first_pos(es, c, m);
                assert(in_class(es[i0].level, c));
                let k0 = choose|k0: int| 0 <= k0 < gs.len() && #[trigger] gs[k0].message == es[i0].message;
                assert(order@.contains(kv[k0]));
                let p0 = choose|p0: int| 0 <= p0 < order@.len() && order@[p0] == kv[k0];
                assert(order@[p0].3 == k0);
                if p0 < rv.len() {
                    assert(rv[p0] == gs[k0]);
                    assert(rv.map_values(|g: GroupView| g.message)[p0] == m);
                }
                assert forall|q: int| 0 <= q < rv.len() implies rank_before(es, c, (#[trigger] rv[q]).message, m) by {
                    let i = order@[q].3 as int;
                    assert(key_lt(order@[q], order@[p0]));
                    assert(kv[i] == order@[q]);
                    assert(rv[q] == gs[i]);
                    if i > k0 {
                        assert(first_pos(es, c, gs[k0].message) < first_pos(es, c, gs[i].message));
                    } else if i < k0 {
                        assert(first_pos(es, c, gs[i].message) < first_pos(es, c, gs[k0].message));
                    }
                }
            }
        }
        r
    }

    /// The buckets in time order.
    fn sort_buckets(&self, buckets: &Vec<TimeBucket>, Ghost(es): Ghost<Seq<EntryView>>) -> (r: Vec<
        TimeBucket,
    >)
        requires
            buckets_wf(buckets@, es, self.bucket_width()),
        ensures
            buckets_of(r@, es, self.bucket_width()),
    {
        let ghost bs = buckets@;
        let ghost w = self.bucket_width();
        let n = buckets.len();
        let mut keys: Vec<SortKey> = Vec::new();
        let mut k: usize = 0;
        while k < n
            invariant
                k <= n,
                n == buckets@.len(),
                keys@.len() == k,
                forall|j: int|
                    0 <= j < k ==> #[trigger] keys@[j] == (0u64, buckets@[j].start.secs, 0u64, j as u64),
            decreases n - k,
        {
            keys.push((0, buckets[k].start.secs, 0, k as u64));
            k = k + 1;
        }
        let ghost kv = keys@;
        let order = sort_indexed(keys);
        let mut r: Vec<TimeBucket> = Vec::new();
        let mut p: usize = 0;
        while p < n
            invariant
                p <= n,
                n == buckets@.len(),
                bs == buckets@,
                sorted_order_of(order@, kv),
                kv.len() == n,
                r@.len() == p,
                forall|q: int| 0 <= q < p ==> #[trigger] r@[q] == bs[order@[q].3 as int],
            decreases n - p,
        {
            let idx = order[p].3 as usize;
            r.push(buckets[idx]);
            p = p + 1;
        }
        proof {
            let rv = r@;
            assert forall|q: int| 0 <= q < rv.len() implies bucket_matches(#[trigger] rv[q], es, w) by {
                assert(rv[q] == bs[order@[q].3 as int]);
            }
            assert forall|q1: int, q2: int| 0 <= q1 < q2 < rv.len() implies (#[trigger] rv[q1]).start.secs
                < (#[trigger] rv[q2]).start.secs by {
                let i = order@[q1].3 as int;
                let j = order@[q2].3 as int;
                assert(key_lt(order@[q1], order@[q2]));
                assert(kv[i] == order@[q1]);
                assert(kv[j] == order@[q2]);
                if i != j {
                    if i < j {
                        assert(bs[i].start.secs != bs[j].start.secs);
                    } else {
                        assert(bs[j].start.secs != bs[i].start.secs);
                    }
                }
            }
            assert forall|i: int| 0 <= i < es.len() && (#[trigger] es[i]).timestamp is Some implies exists|
                q: int,
            | 0 <= q < rv.len() && #[trigger] rv[q].start.secs == bucket_start(es[i].timestamp->0.secs, w) by {
                let k0 = choose|k0: int|
                    0 <= k0 < bs.len() && #[trigger] bs[k0].start.secs == bucket_start(
                        es[i].timestamp->0.secs,
                        w,
                    );
                assert(order@.contains(kv[k0]));
                let p0 = choose|p0: int| 0 <= p0 < order@.len() && order@[p0] == kv[k0];
                assert(rv[p0] == bs[k0]);
            }
        }
        r
    }

    /// Counts one entry of class `c` into the group of its message.
    fn update_group(
        &self,
        groups: &mut Vec<ErrorGroup>,
        entry: &LogEntry,
        Ghost(es): Ghost<Seq<EntryView>>,
        Ghost(c): Ghost<Class>,
    )
        requires
            groups_wf(group_views(old(groups)@), es, c),
            in_class(entry.level, c),
            es.len() < usize::MAX,
        ensures
            groups_wf(group_views(final(groups)@), es.push(entry@), c),
    {
        let ghost e = entry@;
        let ghost gs = group_views(groups@);
        let ghost es2 = es.push(e);
        let ghost m = e.message;
        proof {
            lemma_push(es, e);
        }
        let mut k: usize = 0;
        while k < groups.len()
            invariant
                k <= groups@.len(),
                gs == group_views(groups@),
                m == entry.message@,
                forall|j: int| 0 <= j < k ==> (#[trigger] gs[j]).message != m,
            ensures
                k <= groups@.len(),
                forall|j: int| 0 <= j < k ==> (#[trigger] gs[j]).message != m,
                k < groups@.len() ==> gs[k as int].message == m,
            decreases groups@.len() - k,
        {
            assert(gs[k as int] == groups@[k as int]@);
            if str_eq(groups[k].message.as_str(), entry.message.as_str()) {
                break;
            }
            k = k + 1;
        }
        // messages are distinct, as their first positions are
        assert forall|j: int, l: int| 0 <= j < l < gs.len() implies (#[trigger] gs[j]).message != (
        #[trigger] gs[l]).message by {
            assert(first_pos(es, c, gs[j].message) < first_pos(es, c, gs[l].message));
        }
        if k < groups.len() {
            let old_g = groups[k].copy();
            assert(gs[k as int].message == m);
            proof {
                lemma_first_pos(es, c, m);
            }
            let mut first = old_g.first_seen;
            let mut last = old_g.last_seen;
            if let Some(ts) = entry.timestamp {
                match first {
                    None => first = Some(ts),
                    Some(f) => if ts.is_before(&f) {
                        first = Some(ts);
                    },
                }
                match last {
                    None => last = Some(ts),
                    Some(l) => if l.is_before(&ts) {
                        last = Some(ts);
                    },
                }
            }
            let g = ErrorGroup {
                message: old_g.message,
                count: old_g.count + 1,
                first_seen: first,
                last_seen: last,
            };
            groups.set(k, g);
            proof {
                let gs2 = group_views(groups@);
                assert(gs2 =~= gs.update(k as int, g@));
                assert forall|j: int| 0 <= j < gs2.len() implies group_matches(#[trigger] gs2[j], es2, c)
                    && group_count(es2, c, gs2[j].message) > 0 by {
                    lemma_first_pos(es, c, gs[j].message);
                }
                assert forall|j: int, l: int| 0 <= j < l < gs2.len() implies first_pos(
                    es2,
                    c,
                    (#[trigger] gs2[j]).message,
                ) < first_pos(es2, c, (#[trigger] gs2[l]).message) by {
                    lemma_first_pos(es, c, gs[j].message);
                    lemma_first_pos(es, c, gs[l].message);
                    assert(first_pos(es, c, gs[j].message) < first_pos(es, c, gs[l].message));
                }
                assert forall|i: int| 0 <= i < es2.len() && in_class((#[trigger] es2[i]).level, c) implies exists|
                    j: int,
                | 0 <= j < gs2.len() && #[trigger] gs2[j].message == es2[i].message by {
                    if i < es.len() {
                        assert(es2[i] == es[i]);
                        let j = choose|j: int| 0 <= j < gs.len() && #[trigger] gs[j].message == es[i].message;
                        assert(gs2[j].message == gs[j].message);
                    } else {
                        assert(gs2[k as int].message == m);
                    }
                }
            }
        } else {
            let ng = ErrorGroup {
                message: entry.message.clone(),
                count: 1,
                first_seen: entry.timestamp,
                last_seen: entry.timestamp,
            };
            groups.push(ng);
            proof {
                let gs2 = group_views(groups@);
                assert(gs2 =~= gs.push(ng@));
                lemma_first_pos(es, c, m);
                assert(group_count(es, c, m) == 0) by {
                    if group_count(es, c, m) > 0 {
                        let i = first_pos(es, c, m);
                        assert(in_class(es[i].level, c));
                        let j = choose|j: int| 0 <= j < gs.len() && #[trigger] gs[j].message == es[i].message;
                        assert(gs[j].message == m);
                    }
                }
                assert forall|j: int| 0 <= j < gs2.len() implies group_matches(#[trigger] gs2[j], es2, c)
                    && group_count(es2, c, gs2[j].message) > 0 by {
                    if j < gs.len() {
                        lemma_first_pos(es, c, gs[j].message);
                    }
                }
                assert forall|j: int, l: int| 0 <= j < l < gs2.len() implies first_pos(
                    es2,
                    c,
                    (#[trigger] gs2[j]).message,
                ) < first_pos(es2, c, (#[trigger] gs2[l]).message) by {
                    lemma_first_pos(es, c, gs2[j].message);
                    lemma_first_pos(es, c, gs2[l].message);
                    if l < gs.len() {
                        assert(first_pos(es, c, gs[j].message) < first_pos(es, c, gs[l].message));
                    }
                }
                assert forall|i: int| 0 <= i < es2.len() && in_class((#[trigger] es2[i]).level, c) implies exists|
                    j: int,
                | 0 <= j < gs2.len() && #[trigger] gs2[j].message == es2[i].message by {
                    if i < es.len() {
                        assert(es2[i] == es[i]);
                        let j = choose|j: int| 0 <= j < gs.len() && #[trigger] gs[j].message == es[i].message;
                        assert(gs2[j].message == gs[j].message);
                    } else {
                        assert(gs2[gs.len() as int].message == m);
                    }
                }
            }
        }
    }
}

} // verus!
