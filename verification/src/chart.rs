//! Chart geometry and labels: the runs a colour band paints, and the tick and runtime
//! labels.

use vstd::prelude::*;
use crate::text::{decimal, decimal_view, two_digit, two_digit_view};

verus! {

/// Seconds before now, as an x-axis tick.
pub open spec fn ago_view(secs: nat) -> Seq<char> {
    if secs == 0 {
        "now"@
    } else if secs < 3600 {
        "-"@ + decimal_view(secs / 60) + "m"@
    } else if secs % 3600 == 0 {
        "-"@ + decimal_view(secs / 3600) + "h"@
    } else {
        "-"@ + decimal_view(secs / 3600) + "h"@ + two_digit_view((secs % 3600) / 60) + "m"@
    }
}

/// Seconds before now, as an x-axis tick: `now`, `-15m`, `-1h`, `-1h30m`.
pub fn fmt_ago(secs: u64) -> (r: String)
    ensures
        r@ == ago_view(secs as nat),
{
    if secs == 0 {
        return String::from_str("now");
    }
    let mut r = String::from_str("-");
    if secs < 3600 {
        r.append(decimal(secs / 60).as_str());
        r.append("m");
    } else if secs % 3600 == 0 {
        r.append(decimal(secs / 3600).as_str());
        r.append("h");
    } else {
        r.append(decimal(secs / 3600).as_str());
        r.append("h");
        r.append(two_digit((secs % 3600) / 60).as_str());
        r.append("m");
    }
    r
}

/// A whole number of minutes as hours and minutes: `13h 19m`.
pub open spec fn hours_minutes_view(total_minutes: nat) -> Seq<char> {
    decimal_view(total_minutes / 60) + "h "@ + two_digit_view(total_minutes % 60) + "m"@
}

/// A whole number of minutes as `13h 19m`; the runtime projection rounds to minutes first.
pub fn fmt_hours_minutes(total_minutes: u64) -> (r: String)
    ensures
        r@ == hours_minutes_view(total_minutes as nat),
{
    let mut r = decimal(total_minutes / 60);
    r.append("h ");
    r.append(two_digit(total_minutes % 60).as_str());
    r.append("m");
    r
}

/// `runs` lists, in order, the maximal stretches `[start, end)` of `above` that hold
/// only `true`.
pub open spec fn is_true_runs(runs: Seq<(usize, usize)>, above: Seq<bool>) -> bool {
    &&& forall|k: int| 0 <= k < runs.len() ==> (#[trigger] runs[k]).0 < runs[k].1 <= above.len()
    &&& forall|k: int, j: int| #![trigger runs[k], above[j]] 0 <= k < runs.len() && runs[k].0 <= j < runs[k].1 ==> above[j]
    &&& forall|k: int| 0 <= k < runs.len() && (#[trigger] runs[k]).0 > 0 ==> !above[runs[k].0 - 1]
    &&& forall|k: int| 0 <= k < runs.len() && (#[trigger] runs[k]).1 < above.len() ==> !above[runs[k].1 as int]
    &&& forall|k: int| 0 < k < runs.len() ==> (#[trigger] runs[k - 1]).1 < runs[k].0
    &&& forall|j: int| 0 <= j < above.len() && #[trigger] above[j] ==> exists|k: int| 0 <= k < runs.len() && (#[trigger] runs[k]).0 <= j < runs[k].1
}

/// The maximal stretches of `true` in `above`, as `[start, end)` index pairs, in order.
pub fn true_runs(above: &[bool]) -> (runs: Vec<(usize, usize)>)
    ensures
        is_true_runs(runs@, above@),
{
    let n = above.len();
    let mut runs: Vec<(usize, usize)> = Vec::new();
    let mut i: usize = 0;
    while i < n
        invariant
            n == above@.len(),
            i <= n,
            forall|k: int| 0 <= k < runs@.len() ==> (#[trigger] runs@[k]).0 < runs@[k].1 <= i,
            forall|k: int, j: int| #![trigger runs@[k], above@[j]] 0 <= k < runs@.len() && runs@[k].0 <= j < runs@[k].1 ==> above@[j],
            forall|k: int| 0 <= k < runs@.len() && (#[trigger] runs@[k]).0 > 0 ==> !above@[runs@[k].0 - 1],
            forall|k: int| 0 <= k < runs@.len() && (#[trigger] runs@[k]).1 < n ==> !above@[runs@[k].1 as int],
            forall|k: int| 0 < k < runs@.len() ==> (#[trigger] runs@[k - 1]).1 < runs@[k].0,
            runs@.len() > 0 ==> runs@.last().1 <= i,
            forall|j: int| 0 <= j < i && #[trigger] above@[j] ==> exists|k: int| 0 <= k < runs@.len() && (#[trigger] runs@[k]).0 <= j < runs@[k].1,
        decreases n - i,
    {
        if !above[i] {
            i = i + 1;
        } else {
            let start = i;
            while i < n && above[i]
                invariant
                    n == above@.len(),
                    start <= i <= n,
                    forall|j: int| start <= j < i ==> above@[j],
                decreases n - i,
            {
                i = i + 1;
            }
            let ghost old_runs = runs@;
            runs.push((start, i));
            assert(runs@[runs@.len() - 1] == (start, i));
            assert forall|j: int| 0 <= j < i && #[trigger] above@[j] implies exists|k: int| 0 <= k < runs@.len() && (#[trigger] runs@[k]).0 <= j < runs@[k].1 by {
                if j >= start {
                    assert(runs@[runs@.len() - 1].0 <= j < runs@[runs@.len() - 1].1);
                } else {
                    let k = choose|k: int| 0 <= k < old_runs.len() && (#[trigger] old_runs[k]).0 <= j < old_runs[k].1;
                    assert(runs@[k] == old_runs[k]);
                }
            }
        }
    }
    runs
}

/// Runs listed in order are strictly apart: an earlier one ends before a later one starts.
proof fn lemma_runs_apart(runs: Seq<(usize, usize)>, above: Seq<bool>, a: int, b: int)
    requires
        is_true_runs(runs, above),
        0 <= a < b < runs.len(),
    ensures
        runs[a].1 < runs[b].0,
    decreases b - a,
{
    assert(runs[b - 1].1 < runs[b].0);
    if a < b - 1 {
        lemma_runs_apart(runs, above, a, b - 1);
        assert(runs[b - 1].0 < runs[b - 1].1);
    }
}

/// Where run `k` starts and ends is fixed by where the previous run ended: it starts at
/// the first `true` from there, and ends at the first `false` after that.
proof fn lemma_run_bounds(runs: Seq<(usize, usize)>, above: Seq<bool>, k: int)
    requires
        is_true_runs(runs, above),
        0 <= k < runs.len(),
    ensures
        above[runs[k].0 as int],
        forall|j: int| (if k == 0 { 0 } else { runs[k - 1].1 as int }) <= j < runs[k].0 ==> !above[j],
        k > 0 ==> runs[k - 1].1 <= runs[k].0,
        forall|j: int| runs[k].0 <= j < runs[k].1 ==> above[j],
        runs[k].1 == above.len() || !above[runs[k].1 as int],
{
    let r = runs[k];
    assert(r.0 < r.1 <= above.len());
    assert(above[r.0 as int]);
    assert forall|j: int| runs[k].0 <= j < runs[k].1 implies above[j] by {
        assert(above[j]);
    }
    assert forall|j: int| (if k == 0 { 0 } else { runs[k - 1].1 as int }) <= j < runs[k].0 implies !above[j] by {
        if above[j] {
            let q = choose|q: int| 0 <= q < runs.len() && (#[trigger] runs[q]).0 <= j < runs[q].1;
            if q < k {
                if q < k - 1 {
                    lemma_runs_apart(runs, above, q, k - 1);
                    assert(runs[k - 1].0 < runs[k - 1].1);
                }
            } else if q > k {
                lemma_runs_apart(runs, above, k, q);
                assert(runs[k].0 < runs[k].1);
            }
        }
    }
    if k > 0 {
        assert(runs[k - 1].1 < runs[k].0);
    }
}

/// There is only one way to list the maximal runs of `true` in order, so the contract of
/// [`true_runs`] fixes its result.
pub proof fn law_true_runs_are_unique(r1: Seq<(usize, usize)>, r2: Seq<(usize, usize)>, above: Seq<bool>)
    requires
        is_true_runs(r1, above),
        is_true_runs(r2, above),
    ensures
        r1 == r2,
{
    let m = if r1.len() < r2.len() { r1.len() } else { r2.len() };
    assert forall|k: int| 0 <= k < m implies r1[k] == r2[k] by {
        lemma_same_run(r1, r2, above, k);
    }
    if r1.len() != r2.len() {
        if r1.len() < r2.len() {
            lemma_no_run_beyond(r1, r2, above);
        } else {
            lemma_no_run_beyond(r2, r1, above);
        }
    }
    assert(r1 =~= r2);
}

proof fn lemma_same_run(r1: Seq<(usize, usize)>, r2: Seq<(usize, usize)>, above: Seq<bool>, k: int)
    requires
        is_true_runs(r1, above),
        is_true_runs(r2, above),
        0 <= k < r1.len(),
        k < r2.len(),
    ensures
        r1[k] == r2[k],
    decreases k,
{
    if k > 0 {
        lemma_same_run(r1, r2, above, k - 1);
    }
    lemma_run_bounds(r1, above, k);
    lemma_run_bounds(r2, above, k);
    let (s1, e1) = r1[k];
    let (s2, e2) = r2[k];
    if s1 < s2 {
        assert(!above[s1 as int]);
    } else if s2 < s1 {
        assert(!above[s2 as int]);
    }
    assert(s1 == s2);
    if e1 < e2 {
        assert(above[e1 as int]);
    } else if e2 < e1 {
        assert(above[e2 as int]);
    }
}

/// A list of maximal runs cannot stop short of another that agrees with it so far:
/// whatever run came after its end would hold a `true` no run of the shorter list covers.
proof fn lemma_no_run_beyond(short: Seq<(usize, usize)>, long: Seq<(usize, usize)>, above: Seq<bool>)
    requires
        is_true_runs(short, above),
        is_true_runs(long, above),
        forall|k: int| 0 <= k < short.len() && k < long.len() ==> short[k] == long[k],
    ensures
        short.len() >= long.len(),
{
    if short.len() < long.len() {
        let n = short.len() as int;
        let j = long[n].0 as int;
        assert(long[n].0 < long[n].1 <= above.len());
        assert(above[j]);
        let q = choose|q: int| 0 <= q < short.len() && (#[trigger] short[q]).0 <= j < short[q].1;
        assert(short[q] == long[q]);
        lemma_runs_apart(long, above, q, n);
    }
}

/// The points one run paints: the readings of `[start, end)` at their own height, bracketed
/// by the neighbouring readings pinned to the band floor (`true` marks a pinned point),
/// so the filled area rises out of the band boundary instead of starting with a wall.
pub open spec fn run_points(start: int, end: int, n: int) -> Seq<(usize, bool)> {
    (if start > 0 { seq![((start - 1) as usize, true)] } else { Seq::empty() })
        + Seq::new((end - start) as nat, |j: int| ((start + j) as usize, false))
        + (if end < n { seq![(end as usize, true)] } else { Seq::empty() })
}

/// The points of a run walk the readings one by one from the run's left neighbour (or the
/// first reading) to its right neighbour (or the last reading); a point is pinned to the
/// floor exactly when its reading lies outside the run. So the run opens with its left
/// neighbour pinned whenever it has one, and closes with its right neighbour pinned
/// whenever it has one: the band never ends in a wall short of the segment's edge.
pub proof fn law_run_points_are_bracketed_by_pinned_neighbours(start: int, end: int, n: int)
    requires
        0 <= start < end <= n <= usize::MAX,
    ensures
        ({
            let p = run_points(start, end, n);
            &&& p.len() > 0
            &&& forall|i: int| 0 <= i < p.len() ==> (#[trigger] p[i]).0 < n
            &&& forall|i: int| 0 <= i < p.len() ==> (#[trigger] p[i]).1 == !(start <= p[i].0 < end)
            &&& forall|i: int| 0 < i < p.len() ==> (#[trigger] p[i]).0 == p[i - 1].0 + 1
            &&& p[0] == (if start > 0 { ((start - 1) as usize, true) } else { (0usize, false) })
            &&& p.last() == (if end < n { (end as usize, true) } else { ((n - 1) as usize, false) })
        }),
{
    let p = run_points(start, end, n);
    let head: Seq<(usize, bool)> = if start > 0 { seq![((start - 1) as usize, true)] } else { Seq::empty() };
    let body = Seq::new((end - start) as nat, |j: int| ((start + j) as usize, false));
    let tail: Seq<(usize, bool)> = if end < n { seq![(end as usize, true)] } else { Seq::empty() };
    assert(p == head + body + tail);
    let h = head.len() as int;
    assert forall|i: int| 0 <= i < p.len() implies (#[trigger] p[i]).0 == (if start > 0 { start - 1 + i } else { i }) && p[i].1 == !(start <= p[i].0 < end) by {
        if i < h {
            assert(p[i] == head[i]);
        } else if i < h + body.len() {
            assert(p[i] == body[i - h]);
        } else {
            assert(p[i] == tail[i - h - body.len()]);
        }
    }
    assert forall|i: int| 0 < i < p.len() implies (#[trigger] p[i]).0 == p[i - 1].0 + 1 by {
        assert(p[i].0 == (if start > 0 { start - 1 + i } else { i }));
        assert(p[i - 1].0 == (if start > 0 { start - 1 + (i - 1) } else { i - 1 }));
    }
}

/// In a band's runs, a point is pinned to the floor exactly when its reading stays below
/// the band: every reading that rises above it is drawn at its own height, and each run is
/// closed on both sides by the readings that do not.
pub proof fn law_band_points_pin_exactly_the_readings_below_the_floor(spans: Seq<(usize, usize)>, above: Seq<bool>, k: int)
    requires
        is_true_runs(spans, above),
        0 <= k < spans.len(),
        above.len() <= usize::MAX,
    ensures
        ({
            let p = run_points(spans[k].0 as int, spans[k].1 as int, above.len() as int);
            forall|i: int| 0 <= i < p.len() ==> (#[trigger] p[i]).0 < above.len() && p[i].1 == !above[p[i].0 as int]
        }),
{
    let (start, end) = spans[k];
    assert(start < end <= above.len());
    law_run_points_are_bracketed_by_pinned_neighbours(start as int, end as int, above.len() as int);
    let p = run_points(start as int, end as int, above.len() as int);
    assert forall|i: int| 0 <= i < p.len() implies (#[trigger] p[i]).0 < above.len() && p[i].1 == !above[p[i].0 as int] by {
        let j = p[i].0 as int;
        if start <= j < end {
            assert(above[j]);
        } else if j == start - 1 {
            assert(!above[spans[k].0 - 1]);
        } else {
            assert(p[0].0 == if start > 0 { start - 1 } else { 0 });
            assert(j == end);
            assert(!above[spans[k].1 as int]);
        }
    }
}

fn run_points_exec(start: usize, end: usize, n: usize) -> (pts: Vec<(usize, bool)>)
    requires
        start < end <= n,
    ensures
        pts@ == run_points(start as int, end as int, n as int),
{
    let mut pts: Vec<(usize, bool)> = Vec::new();
    if start > 0 {
        pts.push((start - 1, true));
    }
    let ghost head = pts@;
    let mut j: usize = start;
    while j < end
        invariant
            start <= j <= end,
            head == (if start > 0 { seq![((start - 1) as usize, true)] } else { Seq::<(usize, bool)>::empty() }),
            pts@ == head + Seq::new((j - start) as nat, |q: int| ((start + q) as usize, false)),
        decreases end - j,
    {
        pts.push((j, false));
        j = j + 1;
        assert(pts@ =~= head + Seq::new((j - start) as nat, |q: int| ((start + q) as usize, false)));
    }
    if end < n {
        pts.push((end, true));
    }
    assert(pts@ =~= run_points(start as int, end as int, n as int));
    pts
}

/// Split one gap-free segment into the runs that reach into a colour band, given which
/// readings rise above the band floor.
///
/// Only the stretches that actually rise above the floor are emitted. Clamping the whole
/// segment instead would leave every below-band reading sitting exactly on the band
/// floor, painting a flat line across the full width of each band.
pub fn band_runs(above: &[bool]) -> (runs: Vec<Vec<(usize, bool)>>)
    ensures
        exists|spans: Seq<(usize, usize)>| {
            &&& is_true_runs(spans, above@)
            &&& runs@.len() == spans.len()
            &&& forall|k: int| 0 <= k < spans.len() ==> (#[trigger] runs@[k])@ == run_points(
                spans[k].0 as int,
                spans[k].1 as int,
                above@.len() as int,
            )
        },
{
    let spans = true_runs(above);
    let mut runs: Vec<Vec<(usize, bool)>> = Vec::new();
    let mut k: usize = 0;
    while k < spans.len()
        invariant
            is_true_runs(spans@, above@),
            k <= spans@.len(),
            runs@.len() == k,
            forall|q: int| 0 <= q < k ==> (#[trigger] runs@[q])@ == run_points(
                spans@[q].0 as int,
                spans@[q].1 as int,
                above@.len() as int,
            ),
        decreases spans@.len() - k,
    {
        let (start, end) = spans[k];
        assert(spans@[k as int].0 < spans@[k as int].1 <= above@.len());
        runs.push(run_points_exec(start, end, above.len()));
        k = k + 1;
    }
    runs
}

} // verus!
