//! What the `read` and `analyze` commands compute from the lines of a file.

use vstd::prelude::*;
use crate::filter::{Filter, FilterView, admits};
use crate::parser::{LogEntry, EntryView, Parser, parsed};
use crate::aggregator::entry_views;

verus! {

/// The lines a `read` shows: the last `n` when a tail is asked for, else all.
pub open spec fn window(lines: Seq<Seq<char>>, tail: Option<usize>) -> Seq<Seq<char>> {
    match tail {
        Some(n) => if n < lines.len() {
            lines.subrange(lines.len() - n, lines.len() as int)
        } else {
            lines
        },
        None => lines,
    }
}

/// The entries of the lines that the filter lets through, in order.
pub open spec fn admitted(lines: Seq<Seq<char>>, f: FilterView) -> Seq<EntryView>
    decreases lines.len(),
{
    if lines.len() == 0 {
        seq![]
    } else {
        let p = admitted(lines.drop_last(), f);
        if admits(f, parsed(lines.last())) {
            p.push(parsed(lines.last()))
        } else {
            p
        }
    }
}

/// Number of lines whose entry has a rank in `lo..=hi`.
pub open spec fn rank_count(lines: Seq<Seq<char>>, lo: u8, hi: u8) -> nat
    decreases lines.len(),
{
    if lines.len() == 0 {
        0
    } else {
        rank_count(lines.drop_last(), lo, hi) + if lo <= parsed(lines.last()).level.rank() <= hi {
            1nat
        } else {
            0nat
        }
    }
}

proof fn lemma_rank_count_bounded(lines: Seq<Seq<char>>, lo: u8, hi: u8)
    ensures
        rank_count(lines, lo, hi) <= lines.len(),
    decreases lines.len(),
{
    if lines.len() > 0 {
        lemma_rank_count_bounded(lines.drop_last(), lo, hi);
    }
}

/// What a `read` shows: the entries to print, and the errors and warnings among all the
/// lines looked at (shown or not).
pub struct ReadOutcome {
    pub shown: Vec<LogEntry>,
    pub errors: usize,
    pub warns: usize,
}

/// Parses the lines a `read` looks at and keeps those the filter lets through.
pub fn read_entries(lines: &Vec<String>, tail: Option<usize>, filter: &Filter) -> (r: ReadOutcome)
    ensures
        entry_views(r.shown@) == admitted(window(lines.deep_view(), tail), filter@),
        r.errors == rank_count(window(lines.deep_view(), tail), 4, 5),
        r.warns == rank_count(window(lines.deep_view(), tail), 3, 3),
{
    let ghost lv = lines.deep_view();
    let n = lines.len();
    let start: usize = match tail {
        Some(t) => if t < n { n - t } else { 0 },
        None => 0,
    };
    let ghost w = window(lv, tail);
    assert(w =~= lv.subrange(start as int, n as int));
    let parser = Parser::new();
    let mut shown: Vec<LogEntry> = Vec::new();
    let mut errors: usize = 0;
    let mut warns: usize = 0;
    let mut i = start;
    assert(w.take(0) =~= Seq::<Seq<char>>::empty());
    while i < n
        invariant
            start <= i <= n,
            n == lines@.len(),
            lv == lines.deep_view(),
            w =~= lv.subrange(start as int, n as int),
            entry_views(shown@) =~= admitted(w.take(i - start), filter@),
            errors == rank_count(w.take(i - start), 4, 5),
            warns == rank_count(w.take(i - start), 3, 3),
        decreases n - i,
    {
        let ghost pre = w.take(i - start);
        assert(w.take(i + 1 - start).drop_last() =~= pre);
        assert(w.take(i + 1 - start).last() == lines@[i as int]@);
        proof {
            lemma_rank_count_bounded(pre, 4, 5);
            lemma_rank_count_bounded(pre, 3, 3);
        }
        let entry = parser.parse_line(lines[i].as_str());
        if entry.level.priority() >= 4 {
            errors = errors + 1;
        }
        if entry.level.priority() == 3 {
            warns = warns + 1;
        }
        if filter.matches(&entry) {
            let ghost prev = entry_views(shown@);
            let ghost ev = entry@;
            shown.push(entry);
            assert(entry_views(shown@) =~= prev.push(ev));
        }
        i = i + 1;
    }
    assert(w.take(n - start) =~= w);
    ReadOutcome { shown, errors, warns }
}

/// Parses every line and keeps the entries the filter lets through, for `analyze`.
pub fn matching_entries(lines: &Vec<String>, filter: &Filter) -> (r: Vec<LogEntry>)
    ensures
        entry_views(r@) == admitted(lines.deep_view(), filter@),
{
    let out = read_entries(lines, None, filter);
    out.shown
}

} // verus!
