//! The parts of the analysis report: bars, durations, the level breakdown, the timeline
//! and the verdict line.

use vstd::prelude::*;
use crate::aggregator::{AnalysisSummary, TimeBucket};
use crate::style::{
    Color, Style, Styled, StyledView, styled_views, plain, dim, fg, fg_bold, styled, style_plain,
    style_dim, style_fg, style_fg_bold,
};
use crate::text::{concat_str, decimal, decimal_of, signed_decimal, signed_decimal_of, repeat_char};
use crate::timestamp::Timestamp;
use crate::text::chars_of;
use crate::trusted::{
    string_of, format_timestamp, formatted_of, span_seconds, span_seconds_of, chrono_time_ok,
    quot_toward_zero,
};

verus! {

/// How many of `width` cells a bar for `value` out of `max` fills.
pub open spec fn bar_filled(value: usize, max: usize, width: usize) -> int {
    if max == 0 {
        0
    } else {
        (value * width) / (max as int)
    }
}

/// A bar of `width` cells, filled in proportion to `value` out of `max`.
pub open spec fn bar_view(value: usize, max: usize, width: usize) -> Seq<StyledView> {
    let f = bar_filled(value, max, width);
    seq![
        StyledView { text: Seq::new(f as nat, |i: int| '█'), style: fg(Color::Blue) },
        StyledView { text: Seq::new((width - f) as nat, |i: int| '░'), style: dim() },
    ]
}

/// The bar can be drawn: the product does not overflow and the bar fits its width.
pub open spec fn bar_fits(value: usize, max: usize, width: usize) -> bool {
    max == 0 || (value * width <= usize::MAX && (value * width) / (max as int) <= width)
}

/// `a / d` rounded toward zero.
pub open spec fn tdiv(a: int, d: int) -> int {
    if a >= 0 {
        a / d
    } else {
        -((-a) / d)
    }
}

/// The remainder of `a / d` rounded toward zero.
pub open spec fn trem(a: int, d: int) -> int {
    if a >= 0 {
        a % d
    } else {
        -((-a) % d)
    }
}

/// A number of seconds as "1h 2m 3s", "2m 3s" or "3s".
pub open spec fn duration_text(secs: i64) -> Seq<char> {
    let h = tdiv(secs as int, 3600);
    let m = tdiv(trem(secs as int, 3600), 60);
    let s = trem(secs as int, 60);
    if h > 0 {
        signed_decimal_of(h) + "h "@ + signed_decimal_of(m) + "m "@ + signed_decimal_of(s) + "s"@
    } else if m > 0 {
        signed_decimal_of(m) + "m "@ + signed_decimal_of(s) + "s"@
    } else {
        signed_decimal_of(s) + "s"@
    }
}

/// Reads a number of seconds as hours, minutes and seconds.
pub fn format_duration(secs: i64) -> (r: String)
    ensures
        r@ == duration_text(secs),
{
    let h = match secs.checked_div(3600) {
        Some(x) => x,
        None => 0,
    };
    let rem = match secs.checked_rem(3600) {
        Some(x) => x,
        None => 0,
    };
    let m = match rem.checked_div(60) {
        Some(x) => x,
        None => 0,
    };
    let s = match secs.checked_rem(60) {
        Some(x) => x,
        None => 0,
    };
    proof {
        let a = secs as int;
        if a < 0 {
            assert((-a) % 3600 < 3600) by (nonlinear_arith)
                requires
                    -a > 0,
            ;
        }
    }
    if h > 0 {
        let t1 = concat_str(signed_decimal(h).as_str(), "h ");
        let t2 = concat_str(t1.as_str(), signed_decimal(m).as_str());
        let t3 = concat_str(t2.as_str(), "m ");
        let t4 = concat_str(t3.as_str(), signed_decimal(s).as_str());
        concat_str(t4.as_str(), "s")
    } else if m > 0 {
        let t1 = concat_str(signed_decimal(m).as_str(), "m ");
        let t2 = concat_str(t1.as_str(), signed_decimal(s).as_str());
        concat_str(t2.as_str(), "s")
    } else {
        concat_str(signed_decimal(s).as_str(), "s")
    }
}

/// One row of the level breakdown.
pub struct LevelRow {
    pub label: Styled,
    pub count: usize,
    pub bar: Vec<Styled>,
}

/// One minute of the timeline.
pub struct TimelineRow {
    pub time: String,
    pub bar: Vec<Styled>,
    pub suffix: Styled,
}

/// The largest of four counts, at least 1.
pub open spec fn max4(a: usize, b: usize, c: usize, d: usize) -> usize {
    let m1 = if a > b { a } else { b };
    let m2 = if c > d { c } else { d };
    let m = if m1 > m2 { m1 } else { m2 };
    if m > 1 { m } else { 1 }
}

/// The label, style and count of each level class, in report order.
pub open spec fn level_classes(s: AnalysisSummary) -> Seq<(Seq<char>, Style, usize)> {
    seq![
        ("ERROR"@, fg_bold(Color::Red), s.error_count),
        ("WARN "@, fg_bold(Color::Yellow), s.warn_count),
        ("INFO "@, fg(Color::Green), s.info_count),
        ("DEBUG"@, dim(), s.debug_count),
    ]
}

/// The breakdown rows of the classes with entries: label, count and a 30-cell bar.
pub open spec fn level_rows_of(s: AnalysisSummary) -> Seq<(StyledView, usize, Seq<StyledView>)> {
    let mx = max4(s.error_count, s.warn_count, s.info_count, s.debug_count);
    level_classes(s).filter(|c: (Seq<char>, Style, usize)| c.2 != 0).map_values(
        |c: (Seq<char>, Style, usize)| (StyledView { text: c.0, style: c.1 }, c.2, bar_view(c.2, mx, 30)),
    )
}

/// Most errors in one bucket, at least 1.
pub open spec fn max_bucket_errors(bs: Seq<TimeBucket>) -> usize
    decreases bs.len(),
{
    if bs.len() == 0 {
        1
    } else {
        let m = max_bucket_errors(bs.drop_last());
        if bs.last().errors > m { bs.last().errors } else { m }
    }
}

/// A time as the report shows it, empty when it cannot be shown.
pub open spec fn shown_at(t: Timestamp, fmt: Seq<char>) -> Seq<char> {
    match formatted_of(t.secs, t.nanos, fmt) {
        Some(x) => x,
        None => Seq::empty(),
    }
}

/// The note after a bucket's bar.
pub open spec fn bucket_suffix(b: TimeBucket, spike_at: Option<Timestamp>) -> StyledView {
    if spike_at == Some(b.start) && b.errors > 0 {
        StyledView {
            text: "  ⚠ "@ + decimal_of(b.errors as nat) + " errors ← SPIKE"@,
            style: fg_bold(Color::Red),
        }
    } else if b.errors > 0 {
        StyledView { text: "  "@ + decimal_of(b.errors as nat) + " errors"@, style: fg(Color::Red) }
    } else {
        StyledView { text: Seq::empty(), style: plain() }
    }
}

/// Every bucket's bar can be drawn 20 cells wide.
pub open spec fn timeline_fits(bs: Seq<TimeBucket>) -> bool {
    forall|k: int| 0 <= k < bs.len() ==> (#[trigger] bs[k]).errors * 20 <= usize::MAX
}

/// Every class's bar can be drawn 30 cells wide.
pub open spec fn breakdown_fits(s: AnalysisSummary) -> bool {
    &&& s.error_count * 30 <= usize::MAX
    &&& s.warn_count * 30 <= usize::MAX
    &&& s.info_count * 30 <= usize::MAX
    &&& s.debug_count * 30 <= usize::MAX
}

/// The verdict line.
pub open spec fn health_of(s: AnalysisSummary) -> StyledView {
    if s.error_count == 0 && s.warn_count == 0 {
        StyledView { text: "✅  No errors or warnings"@, style: fg_bold(Color::Green) }
    } else if s.error_count == 0 {
        StyledView {
            text: "🟡  No errors, "@ + decimal_of(s.warn_count as nat) + " warnings to review"@,
            style: fg_bold(Color::Yellow),
        }
    } else {
        StyledView {
            text: "🔴  "@ + decimal_of(s.error_count as nat) + " errors detected"@,
            style: fg_bold(Color::Red),
        }
    }
}

/// The note on the busiest minute, when it has errors.
pub open spec fn spike_note_of(s: AnalysisSummary) -> Option<Seq<StyledView>> {
    match s.spike_at {
        Some(t) => if s.spike_count > 0 {
            Some(
                seq![
                    StyledView { text: "  "@, style: plain() },
                    StyledView { text: "⚠"@, style: fg_bold(Color::Red) },
                    StyledView { text: " Peak at "@, style: plain() },
                    StyledView {
                        text: shown_at(t, "%H:%M:%S"@),
                        style: Style { fg: Color::Default, bg: Color::Default, bold: true, dimmed: false },
                    },
                    StyledView { text: " — "@, style: plain() },
                    StyledView { text: decimal_of(s.spike_count as nat), style: fg_bold(Color::Red) },
                    StyledView { text: " errors in 1 minute"@, style: plain() },
                ],
            )
        } else {
            None
        },
        None => None,
    }
}

/// Whole seconds from `a` to `b`, either way, rounded toward zero; `None` when chrono cannot
/// hold one of the times.
pub open spec fn span_secs(a: Timestamp, b: Timestamp) -> Option<int> {
    if a.nanos < 1_000_000_000 && b.nanos < 1_000_000_000 {
        if chrono_time_ok(a.secs as int, a.nanos as int) && chrono_time_ok(b.secs as int, b.nanos as int) {
            let d = quot_toward_zero((b.secs - a.secs) * 1_000_000_000 + (b.nanos - a.nanos), 1_000_000_000);
            Some(if d < 0 { -d } else { d })
        } else {
            None
        }
    } else {
        match span_seconds_of(a.secs, a.nanos, b.secs, b.nanos) {
            Some(x) => Some(if x < 0 { -x } else { x as int }),
            None => None,
        }
    }
}

/// Start, end and length of the covered time span, when both ends are known.
pub open spec fn time_span_of(s: AnalysisSummary) -> Option<(Seq<char>, Seq<char>, Seq<char>)> {
    match (s.earliest, s.latest) {
        (Some(a), Some(b)) => Some(
            (
                shown_at(a, "%H:%M:%S"@),
                shown_at(b, "%H:%M:%S"@),
                match span_secs(a, b) {
                    Some(secs) => duration_text(secs as i64),
                    None => Seq::empty(),
                },
            ),
        ),
        _ => None,
    }
}

/// Builds the parts of the report.
pub struct Reporter;

fn lit(s: &str) -> (r: String)
    ensures
        r@ == s@,
{
    string_of(chars_of(s).as_slice())
}

fn shown(t: Timestamp, fmt: &str) -> (r: String)
    ensures
        r@ == shown_at(t, fmt@),
{
    match format_timestamp(t.secs, t.nanos, fmt) {
        Some(x) => x,
        None => String::new(),
    }
}

impl Reporter {
    pub fn new() -> (r: Reporter) {
        Reporter
    }

    /// A proportional bar: filled cells, then empty ones.
    pub fn make_bar(&self, value: usize, max: usize, width: usize) -> (r: Vec<Styled>)
        requires
            bar_fits(value, max, width),
        ensures
            styled_views(r@) == bar_view(value, max, width),
    {
        let filled = if max == 0 { 0 } else { (value * width) / max };
        let empty = width - filled;
        let mut out: Vec<Styled> = Vec::new();
        out.push(styled(repeat_char('█', filled), style_fg(Color::Blue)));
        out.push(styled(repeat_char('░', empty), style_dim()));
        assert(styled_views(out@) =~= bar_view(value, max, width));
        out
    }

    /// The rows of the level breakdown, for the classes that have entries.
    #[verifier::loop_isolation(false)]
    pub fn level_rows(&self, s: &AnalysisSummary) -> (r: Vec<LevelRow>)
        requires
            breakdown_fits(*s),
        ensures
            r@.map_values(|row: LevelRow| (row.label@, row.count, styled_views(row.bar@)))
                == level_rows_of(*s),
    {
        let a = s.error_count;
        let b = s.warn_count;
        let c = s.info_count;
        let d = s.debug_count;
        let m1 = if a > b { a } else { b };
        let m2 = if c > d { c } else { d };
        let m = if m1 > m2 { m1 } else { m2 };
        let mx = if m > 1 { m } else { 1 };
        let ghost classes = level_classes(*s);
        let ghost pred = |c: (Seq<char>, Style, usize)| c.2 != 0;
        let ghost f = |c: (Seq<char>, Style, usize)| (StyledView { text: c.0, style: c.1 }, c.2, bar_view(c.2, mx, 30));
        let mut rows: Vec<LevelRow> = Vec::new();
        let mut i: usize = 0;
        proof {
            reveal_with_fuel(Seq::filter, 1);
            assert(classes.take(0).filter(pred) =~= Seq::<(Seq<char>, Style, usize)>::empty());
        }
        while i < 4
            invariant
                i <= 4,
                a == s.error_count,
                b == s.warn_count,
                c == s.info_count,
                d == s.debug_count,
                classes == level_classes(*s),
                mx == max4(s.error_count, s.warn_count, s.info_count, s.debug_count),
                breakdown_fits(*s),
                rows@.map_values(|row: LevelRow| (row.label@, row.count, styled_views(row.bar@)))
                    =~= classes.take(i as int).filter(pred).map_values(f),
            decreases 4 - i,
        {
            let (label, style, count) = if i == 0 {
                ("ERROR", style_fg_bold(Color::Red), a)
            } else if i == 1 {
                ("WARN ", style_fg_bold(Color::Yellow), b)
            } else if i == 2 {
                ("INFO ", style_fg(Color::Green), c)
            } else {
                ("DEBUG", style_dim(), d)
            };
            proof {
                reveal_with_fuel(Seq::filter, 1);
                assert(classes.take(i + 1).drop_last() =~= classes.take(i as int));
                if i == 0 {
                    assert(classes[0] == (label@, style, count));
                } else if i == 1 {
                    assert(classes[1] == (label@, style, count));
                } else if i == 2 {
                    assert(classes[2] == (label@, style, count));
                } else {
                    assert(classes[3] == (label@, style, count));
                }
            }
            if count != 0 {
                proof {
                    let e = count as int;
                    assert(count <= mx);
                    assert((e * 30) / (mx as int) <= 30) by (nonlinear_arith)
                        requires
                            0 <= e <= mx,
                            mx >= 1,
                    ;
                }
                let bar = self.make_bar(count, mx, 30);
                let row = LevelRow { label: styled(lit(label), style), count, bar };
                let ghost prev = rows@.map_values(|row: LevelRow| (row.label@, row.count, styled_views(row.bar@)));
                rows.push(row);
                assert(rows@.map_values(|row: LevelRow| (row.label@, row.count, styled_views(row.bar@))) =~= prev.push(
                    f(classes[i as int]),
                ));
            }
            i = i + 1;
        }
        assert(classes.take(4) =~= classes);
        rows
    }

    /// One row per minute: the time, a 20-cell bar of its errors, and a note.
    pub fn timeline_rows(&self, s: &AnalysisSummary) -> (r: Vec<TimelineRow>)
        requires
            timeline_fits(s.time_buckets@),
        ensures
            r@.len() == s.time_buckets@.len(),
            forall|k: int|
                0 <= k < r@.len() ==> {
                    let b = s.time_buckets@[k];
                    &&& (#[trigger] r@[k]).time@ == shown_at(b.start, "%H:%M"@)
                    &&& styled_views(r@[k].bar@) == bar_view(b.errors, max_bucket_errors(s.time_buckets@), 20)
                    &&& r@[k].suffix@ == bucket_suffix(b, s.spike_at)
                },
    {
        let bs = &s.time_buckets;
        let n = bs.len();
        let mut mx: usize = 1;
        let mut i: usize = 0;
        while i < n
            invariant
                i <= n,
                n == bs@.len(),
                mx == max_bucket_errors(bs@.take(i as int)),
                mx >= 1,
                forall|k: int| 0 <= k < i ==> (#[trigger] bs@[k]).errors <= mx,
            decreases n - i,
        {
            assert(bs@.take(i + 1).drop_last() =~= bs@.take(i as int));
            if bs[i].errors > mx {
                mx = bs[i].errors;
            }
            i = i + 1;
        }
        assert(bs@.take(n as int) =~= bs@);
        let mut rows: Vec<TimelineRow> = Vec::new();
        let mut k: usize = 0;
        while k < n
            invariant
                k <= n,
                n == bs@.len(),
                mx == max_bucket_errors(bs@),
                mx >= 1,
                forall|j: int| 0 <= j < n ==> (#[trigger] bs@[j]).errors <= mx,
                timeline_fits(bs@),
                rows@.len() == k,
                forall|j: int|
                    0 <= j < k ==> {
                        let b = bs@[j];
                        &&& (#[trigger] rows@[j]).time@ == shown_at(b.start, "%H:%M"@)
                        &&& styled_views(rows@[j].bar@) == bar_view(b.errors, mx, 20)
                        &&& rows@[j].suffix@ == bucket_suffix(b, s.spike_at)
                    },
            decreases n - k,
        {
            let b = bs[k];
            proof {
                let e = b.errors as int;
                assert(bs@[k as int].errors <= mx);
                assert((e * 20) / (mx as int) <= 20) by (nonlinear_arith)
                    requires
                        0 <= e <= mx,
                        mx >= 1,
                ;
            }
            let bar = self.make_bar(b.errors, mx, 20);
            let time = shown(b.start, "%H:%M");
            let is_spike = match s.spike_at {
                Some(t) => t == b.start,
                None => false,
            } && b.errors > 0;
            let suffix = if is_spike {
                let t1 = concat_str("  ⚠ ", decimal(b.errors as u64).as_str());
                styled(concat_str(t1.as_str(), " errors ← SPIKE"), style_fg_bold(Color::Red))
            } else if b.errors > 0 {
                let t1 = concat_str("  ", decimal(b.errors as u64).as_str());
                styled(concat_str(t1.as_str(), " errors"), style_fg(Color::Red))
            } else {
                styled(String::new(), style_plain())
            };
            rows.push(TimelineRow { time, bar, suffix });
            k = k + 1;
        }
        rows
    }

    /// The note on the busiest minute.
    pub fn spike_note(&self, s: &AnalysisSummary) -> (r: Option<Vec<Styled>>)
        ensures
            match spike_note_of(*s) {
                Some(v) => r matches Some(x) && styled_views(x@) == v,
                None => r is None,
            },
    {
        match s.spike_at {
            Some(t) => if s.spike_count > 0 {
                let mut out: Vec<Styled> = Vec::new();
                out.push(styled(lit("  "), style_plain()));
                out.push(styled(lit("⚠"), style_fg_bold(Color::Red)));
                out.push(styled(lit(" Peak at "), style_plain()));
                out.push(
                    styled(
                        shown(t, "%H:%M:%S"),
                        Style { fg: Color::Default, bg: Color::Default, bold: true, dimmed: false },
                    ),
                );
                out.push(styled(lit(" — "), style_plain()));
                out.push(styled(decimal(s.spike_count as u64), style_fg_bold(Color::Red)));
                out.push(styled(lit(" errors in 1 minute"), style_plain()));
                assert(styled_views(out@) =~= spike_note_of(*s)->0);
                Some(out)
            } else {
                None
            },
            None => None,
        }
    }

    /// The verdict line at the foot of the report.
    pub fn health(&self, s: &AnalysisSummary) -> (r: Styled)
        ensures
            r@ == health_of(*s),
    {
        if s.error_count == 0 && s.warn_count == 0 {
            styled(lit("✅  No errors or warnings"), style_fg_bold(Color::Green))
        } else if s.error_count == 0 {
            let t1 = concat_str("🟡  No errors, ", decimal(s.warn_count as u64).as_str());
            styled(concat_str(t1.as_str(), " warnings to review"), style_fg_bold(Color::Yellow))
        } else {
            let t1 = concat_str("🔴  ", decimal(s.error_count as u64).as_str());
            styled(concat_str(t1.as_str(), " errors detected"), style_fg_bold(Color::Red))
        }
    }

    /// Start and end of the covered span and its length, when both ends are known.
    pub fn time_span(&self, s: &AnalysisSummary) -> (r: Option<(String, String, String)>)
        ensures
            match time_span_of(*s) {
                Some(v) => r matches Some(x) && x.0@ == v.0 && x.1@ == v.1 && x.2@ == v.2,
                None => r is None,
            },
    {
        match (s.earliest, s.latest) {
            (Some(a), Some(b)) => {
                let dur = match span_seconds(a.secs, a.nanos, b.secs, b.nanos) {
                    Some(secs) => format_duration(if secs < 0 { -secs } else { secs }),
                    None => String::new(),
                };
                Some((shown(a, "%H:%M:%S"), shown(b, "%H:%M:%S"), dur))
            },
            _ => None,
        }
    }
}

} // verus!
