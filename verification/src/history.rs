//! The sample series: ordering of backfilled history, gap segmentation, retention and
//! windowing.
//!
//! A reading's value travels through here untouched, so the series is generic over it;
//! only the timestamp and the charge direction decide anything.

use vstd::prelude::*;
use crate::power::{State, upower_state};

verus! {

broadcast use vstd::seq_lib::group_seq_properties;

/// One power-draw observation.
#[derive(Debug, Clone, Copy, PartialEq)]
pub struct Sample<W> {
    /// Unix seconds.
    pub ts: u64,
    pub watts: W,
    pub state: State,
}

/// Longest silence still treated as continuous sampling.
///
/// UPower logs about every second under load and every thirty at rest, so the threshold
/// has to clear 30 s comfortably without swallowing a real absence.
pub const GAP_SECS: u64 = 120;

/// Timestamps never go backwards along `s`.
pub open spec fn ts_sorted<W>(s: Seq<Sample<W>>) -> bool {
    forall|i: int, j: int| 0 <= i <= j < s.len() ==> s[i].ts <= s[j].ts
}

/// Number of leading readings of `s` stamped strictly before `t`.
pub open spec fn lead_before<W>(s: Seq<Sample<W>>, t: u64) -> nat
    decreases s.len(),
{
    if s.len() > 0 && s[0].ts < t {
        1 + lead_before(s.drop_first(), t)
    } else {
        0
    }
}

/// Number of leading readings of `s` stamped at or before `t`.
pub open spec fn lead_at_or_before<W>(s: Seq<Sample<W>>, t: u64) -> nat
    decreases s.len(),
{
    if s.len() > 0 && s[0].ts <= t {
        1 + lead_at_or_before(s.drop_first(), t)
    } else {
        0
    }
}

/// Whether sampling stopped for longer than `gap` between readings stamped `prev` and `next`.
pub open spec fn breaks(prev: u64, next: u64, gap: u64) -> bool {
    next > prev && next - prev > gap
}

/// No two neighbouring readings of `s` are separated by a gap.
pub open spec fn gap_free<W>(s: Seq<Sample<W>>, gap: u64) -> bool {
    forall|k: int| 0 < k < s.len() ==> !breaks(#[trigger] s[k - 1].ts, s[k].ts, gap)
}

/// `segs` cuts `s` into its maximal gap-free stretches, in order.
pub open spec fn is_gap_partition<W>(segs: Seq<Seq<Sample<W>>>, s: Seq<Sample<W>>, gap: u64) -> bool {
    &&& segs.flatten() == s
    &&& forall|k: int| 0 <= k < segs.len() ==> (#[trigger] segs[k]).len() > 0 && gap_free(segs[k], gap)
    &&& forall|k: int| 0 < k < segs.len() ==> breaks(#[trigger] segs[k - 1].last().ts, segs[k][0].ts, gap)
}

/// The series after `push`: a reading no newer than the last one is ignored; otherwise it
/// is appended and everything stamped before `retain` seconds behind it is dropped.
pub open spec fn pushed<W>(s: Seq<Sample<W>>, x: Sample<W>, retain: u64) -> Seq<Sample<W>> {
    if s.len() > 0 && x.ts <= s.last().ts {
        s
    } else {
        let horizon = if x.ts >= retain { (x.ts - retain) as u64 } else { 0 };
        let t = s.push(x);
        t.skip(lead_before(t, horizon) as int)
    }
}

/// One `GetHistory` tuple as a sample.
pub open spec fn history_sample<W>(raw: (u32, W, u32)) -> Sample<W> {
    Sample { ts: raw.0 as u64, watts: raw.1, state: upower_state(raw.2) }
}

/// `x` inserted into `s` after every reading stamped at or before it.
pub open spec fn insert_by_ts<W>(s: Seq<Sample<W>>, x: Sample<W>) -> Seq<Sample<W>> {
    s.insert(lead_at_or_before(s, x.ts) as int, x)
}

/// Stable sort by timestamp: readings with equal stamps keep their relative order.
pub open spec fn sort_by_ts<W>(s: Seq<Sample<W>>) -> Seq<Sample<W>>
    decreases s.len(),
{
    if s.len() == 0 {
        s
    } else {
        insert_by_ts(sort_by_ts(s.drop_last()), s.last())
    }
}

pub open spec fn slice_views<W>(segs: Seq<&[Sample<W>]>) -> Seq<Seq<Sample<W>>> {
    segs.map_values(|t: &[Sample<W>]| t@)
}

/// The leading run counted by `lead_before` is exactly the readings before `t`.
pub proof fn lemma_lead_before<W>(s: Seq<Sample<W>>, t: u64)
    ensures
        lead_before(s, t) <= s.len(),
        forall|k: int| 0 <= k < lead_before(s, t) ==> s[k].ts < t,
        lead_before(s, t) < s.len() ==> s[lead_before(s, t) as int].ts >= t,
        ts_sorted(s) ==> forall|k: int| lead_before(s, t) <= k < s.len() ==> s[k].ts >= t,
    decreases s.len(),
{
    if s.len() > 0 && s[0].ts < t {
        lemma_lead_before(s.drop_first(), t);
    }
}

/// The leading run counted by `lead_at_or_before` is exactly the readings at or before `t`.
pub proof fn lemma_lead_at_or_before<W>(s: Seq<Sample<W>>, t: u64)
    ensures
        lead_at_or_before(s, t) <= s.len(),
        forall|k: int| 0 <= k < lead_at_or_before(s, t) ==> s[k].ts <= t,
        lead_at_or_before(s, t) < s.len() ==> s[lead_at_or_before(s, t) as int].ts > t,
        ts_sorted(s) ==> forall|k: int| lead_at_or_before(s, t) <= k < s.len() ==> s[k].ts > t,
    decreases s.len(),
{
    if s.len() > 0 && s[0].ts <= t {
        lemma_lead_at_or_before(s.drop_first(), t);
    }
}

/// How many leading readings are stamped before `t`, found by scanning.
fn count_before<W>(s: &[Sample<W>], t: u64) -> (r: usize)
    ensures
        r == lead_before(s@, t),
{
    let n = s.len();
    let mut i: usize = 0;
    assert(s@.skip(0) =~= s@);
    while i < n && s[i].ts < t
        invariant
            n == s@.len(),
            i <= n,
            lead_before(s@, t) == i + lead_before(s@.skip(i as int), t),
        decreases n - i,
    {
        assert(s@.skip(i as int).drop_first() =~= s@.skip(i + 1));
        i = i + 1;
    }
    i
}

/// Split a series wherever sampling stopped for longer than `gap_secs`.
///
/// Drawing one line across a gap would invent data: a three-hour suspend has to read as
/// absence, not as a straight interpolation between the samples either side of it.
pub fn segments<W>(samples: &[Sample<W>], gap_secs: u64) -> (segs: Vec<&[Sample<W>]>)
    ensures
        is_gap_partition(slice_views(segs@), samples@, gap_secs),
{
    let n = samples.len();
    let mut segs: Vec<&[Sample<W>]> = Vec::new();
    if n == 0 {
        assert(slice_views(segs@) =~= Seq::<Seq<Sample<W>>>::empty());
        assert(samples@ =~= Seq::<Sample<W>>::empty());
        return segs;
    }
    let mut start: usize = 0;
    let mut i: usize = 1;
    assert(samples@.subrange(0, 0) =~= Seq::<Sample<W>>::empty());
    assert(slice_views(segs@) =~= Seq::<Seq<Sample<W>>>::empty());
    while i < n
        invariant
            n == samples@.len(),
            start < i,
            i <= n,
            is_gap_partition(slice_views(segs@), samples@.subrange(0, start as int), gap_secs),
            start > 0 ==> segs@.len() > 0 && segs@.last()@.last() == samples@[start - 1]
                && breaks(samples@[start - 1].ts, samples@[start as int].ts, gap_secs),
            gap_free(samples@.subrange(start as int, i as int), gap_secs),
        decreases n - i,
    {
        let prev = samples[i - 1].ts;
        let next = samples[i].ts;
        if next > prev && next - prev > gap_secs {
            let seg = vstd::slice::slice_subrange(samples, start, i);
            proof {
                let old_views = slice_views(segs@);
                assert(slice_views(segs@.push(seg)) =~= old_views.push(seg@));
                old_views.lemma_flatten_push(seg@);
                assert(samples@.subrange(0, start as int) + seg@ =~= samples@.subrange(0, i as int));
            }
            segs.push(seg);
            start = i;
        } else {
            assert forall|k: int| 0 < k < samples@.subrange(start as int, i + 1).len() implies
                !breaks(#[trigger] samples@.subrange(start as int, i + 1)[k - 1].ts,
                    samples@.subrange(start as int, i + 1)[k].ts, gap_secs) by {
                if k < i - start {
                    assert(samples@.subrange(start as int, i as int)[k - 1]
                        == samples@.subrange(start as int, i + 1)[k - 1]);
                    assert(samples@.subrange(start as int, i as int)[k]
                        == samples@.subrange(start as int, i + 1)[k]);
                }
            }
        }
        i = i + 1;
    }
    if start < n {
        let seg = vstd::slice::slice_subrange(samples, start, n);
        proof {
            let old_views = slice_views(segs@);
            assert(slice_views(segs@.push(seg)) =~= old_views.push(seg@));
            old_views.lemma_flatten_push(seg@);
            assert(samples@.subrange(0, start as int) + seg@ =~= samples@);
            assert(i == n);
        }
        segs.push(seg);
    }
    segs
}

/// The tail of a series at or after `since`.
pub fn window<W>(series: &[Sample<W>], since: u64) -> (w: &[Sample<W>])
    ensures
        w@ == series@.skip(lead_before(series@, since) as int),
{
    let cut = count_before(series, since);
    proof {
        lemma_lead_before(series@, since);
    }
    vstd::slice::slice_subrange(series, cut, series.len())
}

/// Append a live reading, then drop anything older than `retain_secs` behind it.
///
/// Readings at or before the newest one are ignored: the backfill and the first live
/// polls overlap, and the EC only refreshes about once a second, so a faster poll
/// re-reads the same value rather than resolving a new one.
pub fn push<W>(series: &mut Vec<Sample<W>>, sample: Sample<W>, retain_secs: u64)
    ensures
        final(series)@ == pushed(old(series)@, sample, retain_secs),
{
    let n = series.len();
    if n > 0 && sample.ts <= series[n - 1].ts {
        return;
    }
    let horizon = sample.ts.saturating_sub(retain_secs);
    series.push(sample);
    let stale = count_before(series.as_slice(), horizon);
    proof {
        lemma_lead_before(series@, horizon);
    }
    let kept = series.split_off(stale);
    *series = kept;
}

/// How many leading readings are stamped at or before `t`, found by scanning.
fn count_at_or_before<W>(s: &[Sample<W>], t: u64) -> (r: usize)
    ensures
        r == lead_at_or_before(s@, t),
{
    let n = s.len();
    let mut i: usize = 0;
    assert(s@.skip(0) =~= s@);
    while i < n && s[i].ts <= t
        invariant
            n == s@.len(),
            i <= n,
            lead_at_or_before(s@, t) == i + lead_at_or_before(s@.skip(i as int), t),
        decreases n - i,
    {
        assert(s@.skip(i as int).drop_first() =~= s@.skip(i + 1));
        i = i + 1;
    }
    i
}

/// Order raw `(unix_ts, reading, state)` tuples from `GetHistory` oldest first.
///
/// UPower hands them back newest-first. Sorting is on the timestamp alone and stable, so
/// readings sharing a second keep the order UPower gave them.
pub fn sort_history<W: Copy>(raw: &[(u32, W, u32)]) -> (out: Vec<Sample<W>>)
    ensures
        out@ == sort_by_ts(raw@.map_values(|r: (u32, W, u32)| history_sample(r))),
{
    let ghost mapped = raw@.map_values(|r: (u32, W, u32)| history_sample(r));
    let n = raw.len();
    let mut out: Vec<Sample<W>> = Vec::new();
    let mut i: usize = 0;
    assert(mapped.take(0) =~= Seq::<Sample<W>>::empty());
    while i < n
        invariant
            n == raw@.len(),
            mapped == raw@.map_values(|r: (u32, W, u32)| history_sample(r)),
            i <= n,
            out@ == sort_by_ts(mapped.take(i as int)),
        decreases n - i,
    {
        let r = raw[i];
        let x = Sample { ts: r.0 as u64, watts: r.1, state: State::from_upower(r.2) };
        assert(x == mapped[i as int]);
        let pos = count_at_or_before(out.as_slice(), x.ts);
        proof {
            lemma_lead_at_or_before(out@, x.ts);
            assert(mapped.take(i + 1).drop_last() =~= mapped.take(i as int));
            assert(mapped.take(i + 1).last() == x);
        }
        out.insert(pos, x);
        i = i + 1;
    }
    assert(mapped.take(n as int) =~= mapped);
    out
}

/// The readings of `s` taken on battery, in order.
pub open spec fn on_battery<W>(s: Seq<Sample<W>>) -> Seq<Sample<W>> {
    s.filter(|x: Sample<W>| x.state == State::Discharging)
}

/// The readings of `samples` taken on battery, in order.
///
/// While charging, the same counters measure energy going into the pack rather than the
/// draw of the machine, so those readings are left out.
pub fn discharging<W: Copy>(samples: &[Sample<W>]) -> (out: Vec<Sample<W>>)
    ensures
        out@ == on_battery(samples@),
{
    let n = samples.len();
    let mut out: Vec<Sample<W>> = Vec::new();
    let mut i: usize = 0;
    assert(samples@.take(0) =~= Seq::<Sample<W>>::empty());
    proof {
        reveal(Seq::filter);
    }
    while i < n
        invariant
            n == samples@.len(),
            i <= n,
            out@ == samples@.take(i as int).filter(|x: Sample<W>| x.state == State::Discharging),
        decreases n - i,
    {
        let x = samples[i];
        proof {
            assert(samples@.take(i + 1) =~= samples@.take(i as int).push(x));
            samples@.take(i as int).lemma_filter_push(x, |x: Sample<W>| x.state == State::Discharging);
        }
        if x.state == State::Discharging {
            out.push(x);
        }
        i = i + 1;
    }
    assert(samples@.take(n as int) =~= samples@);
    out
}

/// Seconds between neighbouring readings that the same gap-free stretch holds, summed:
/// the time actually covered by sampling. Gaps contribute nothing.
pub open spec fn covered_view<W>(s: Seq<Sample<W>>, gap: u64) -> int
    decreases s.len(),
{
    if s.len() < 2 {
        0
    } else {
        let prev = s[s.len() - 2].ts;
        let next = s.last().ts;
        let step: int = if next > prev && next - prev <= gap { next - prev } else { 0 };
        covered_view(s.drop_last(), gap) + step
    }
}

/// Seconds of real sampling behind a window: the time spanned inside each gap-free
/// stretch, with nothing counted across a gap. `None` when the total does not fit in
/// 64 bits, which no series ordered by time can reach.
///
/// This is the time base of the energy figure; the energy itself is summed over the
/// same neighbouring pairs.
pub fn covered_secs<W>(samples: &[Sample<W>], gap_secs: u64) -> (secs: Option<u64>)
    ensures
        secs == if covered_view(samples@, gap_secs) <= u64::MAX {
            Some(covered_view(samples@, gap_secs) as u64)
        } else {
            None
        },
{
    let n = samples.len();
    let mut total: u64 = 0;
    let mut i: usize = 1;
    if n == 0 {
        return Some(0);
    }
    while i < n
        invariant
            n == samples@.len(),
            1 <= i <= n,
            total == covered_view(samples@.take(i as int), gap_secs),
        decreases n - i,
    {
        proof {
            lemma_covered_monotone(samples@, (i + 1) as int, gap_secs);
            assert(samples@.take(i + 1).drop_last() =~= samples@.take(i as int));
        }
        let prev = samples[i - 1].ts;
        let next = samples[i].ts;
        if next > prev && next - prev <= gap_secs {
            match total.checked_add(next - prev) {
                Some(t) => {
                    total = t;
                },
                None => {
                    return None;
                },
            }
        }
        i = i + 1;
    }
    assert(samples@.take(n as int) =~= samples@);
    Some(total)
}

/// Covered time never shrinks as the series grows.
proof fn lemma_covered_monotone<W>(s: Seq<Sample<W>>, k: int, gap: u64)
    requires
        0 <= k <= s.len(),
    ensures
        covered_view(s.take(k), gap) <= covered_view(s, gap),
    decreases s.len() - k,
{
    if k < s.len() {
        lemma_covered_monotone(s, k + 1, gap);
        assert(s.take(k + 1).drop_last() =~= s.take(k));
    } else {
        assert(s.take(k) =~= s);
    }
}

/// Inserting after every reading stamped at or before the new one keeps a sorted series
/// sorted, and adds exactly that reading.
proof fn lemma_insert_by_ts<W>(s: Seq<Sample<W>>, x: Sample<W>)
    requires
        ts_sorted(s),
    ensures
        ts_sorted(insert_by_ts(s, x)),
        insert_by_ts(s, x).to_multiset() == s.to_multiset().insert(x),
{
    let p = lead_at_or_before(s, x.ts) as int;
    lemma_lead_at_or_before(s, x.ts);
    vstd::seq_lib::to_multiset_insert(s, p, x);
    let r = insert_by_ts(s, x);
    assert forall|i: int, j: int| 0 <= i <= j < r.len() implies r[i].ts <= r[j].ts by {
        if i < p && j < p {
        } else if i < p && j == p {
        } else if i < p && j > p {
            assert(r[j] == s[j - 1]);
        } else if i == p && j > p {
            assert(r[j] == s[j - 1]);
        } else if i > p {
            assert(r[i] == s[i - 1]);
            assert(r[j] == s[j - 1]);
        }
    }
}

/// Backfilled history comes out oldest first, holding exactly the readings it was given.
pub proof fn law_history_sort_orders_and_keeps_readings<W>(s: Seq<Sample<W>>)
    ensures
        ts_sorted(sort_by_ts(s)),
        sort_by_ts(s).to_multiset() == s.to_multiset(),
    decreases s.len(),
{
    if s.len() > 0 {
        law_history_sort_orders_and_keeps_readings(s.drop_last());
        lemma_insert_by_ts(sort_by_ts(s.drop_last()), s.last());
        vstd::seq_lib::to_multiset_build(s.drop_last(), s.last());
        assert(s.drop_last().push(s.last()) =~= s);
    }
}

/// Pushing onto a series ordered by time leaves it ordered by time; an accepted reading
/// becomes the newest, and nothing older than the retention horizon behind it survives.
pub proof fn law_push_keeps_series_ordered_and_bounded<W>(s: Seq<Sample<W>>, x: Sample<W>, retain: u64)
    requires
        ts_sorted(s),
    ensures
        ts_sorted(pushed(s, x, retain)),
        s.len() > 0 && x.ts <= s.last().ts ==> pushed(s, x, retain) == s,
        !(s.len() > 0 && x.ts <= s.last().ts) ==> {
            let r = pushed(s, x, retain);
            &&& r.len() > 0
            &&& r.last() == x
            &&& forall|k: int| 0 <= k < r.len() ==> r[k].ts + retain >= x.ts
        },
{
    if !(s.len() > 0 && x.ts <= s.last().ts) {
        let horizon = if x.ts >= retain { (x.ts - retain) as u64 } else { 0 };
        let t = s.push(x);
        assert(ts_sorted(t));
        lemma_lead_before(t, horizon);
        let c = lead_before(t, horizon) as int;
        assert(t[t.len() - 1].ts >= horizon);
        assert(c < t.len());
    }
}

/// A reading pushed twice is kept once: an overlapping backfill never duplicates.
pub proof fn law_push_ignores_a_repeat<W>(s: Seq<Sample<W>>, x: Sample<W>, retain: u64)
    requires
        ts_sorted(s),
    ensures
        pushed(pushed(s, x, retain), x, retain) == pushed(s, x, retain),
{
    law_push_keeps_series_ordered_and_bounded(s, x, retain);
}

proof fn lemma_filter_none<W>(s: Seq<Sample<W>>, t: u64)
    requires
        forall|k: int| 0 <= k < s.len() ==> s[k].ts < t,
    ensures
        s.filter(|x: Sample<W>| x.ts >= t) == Seq::<Sample<W>>::empty(),
    decreases s.len(),
{
    reveal(Seq::filter);
    if s.len() > 0 {
        lemma_filter_none(s.drop_last(), t);
    }
}

proof fn lemma_filter_all<W>(s: Seq<Sample<W>>, t: u64)
    requires
        forall|k: int| 0 <= k < s.len() ==> s[k].ts >= t,
    ensures
        s.filter(|x: Sample<W>| x.ts >= t) == s,
    decreases s.len(),
{
    reveal(Seq::filter);
    if s.len() > 0 {
        lemma_filter_all(s.drop_last(), t);
        assert(s.drop_last().push(s.last()) =~= s);
    }
}

/// On a series ordered by time, the window is exactly the readings stamped at or after
/// its start.
pub proof fn law_window_is_the_readings_since<W>(s: Seq<Sample<W>>, since: u64)
    requires
        ts_sorted(s),
    ensures
        s.skip(lead_before(s, since) as int) == s.filter(|x: Sample<W>| x.ts >= since),
{
    lemma_lead_before(s, since);
    let c = lead_before(s, since) as int;
    let pre = s.take(c);
    let post = s.skip(c);
    assert(s =~= pre + post);
    lemma_filter_none(pre, since);
    lemma_filter_all(post, since);
    Seq::filter_distributes_over_add(pre, post, |x: Sample<W>| x.ts >= since);
    assert(post =~= Seq::<Sample<W>>::empty() + post);
}

/// An accepted reading keeps every earlier reading stamped no more than `retain` seconds
/// before it, and drops exactly those stamped earlier: retention trims by age and by
/// nothing else.
pub proof fn law_push_keeps_exactly_the_readings_within_retention<W>(s: Seq<Sample<W>>, x: Sample<W>, retain: u64)
    requires
        ts_sorted(s),
        !(s.len() > 0 && x.ts <= s.last().ts),
    ensures
        pushed(s, x, retain) == s.push(x).filter(|y: Sample<W>| y.ts + retain >= x.ts),
{
    let horizon = if x.ts >= retain { (x.ts - retain) as u64 } else { 0 };
    let t = s.push(x);
    assert(ts_sorted(t));
    law_window_is_the_readings_since(t, horizon);
    let by_horizon = |y: Sample<W>| y.ts >= horizon;
    let by_age = |y: Sample<W>| y.ts + retain >= x.ts;
    assert(by_horizon =~= by_age);
    assert(t.filter(by_horizon) == t.filter(by_age));
}

/// On a series ordered by time, sampled coverage never exceeds the time the series spans,
/// and equals it when the series has no gap.
pub proof fn law_coverage_is_bounded_by_the_span<W>(s: Seq<Sample<W>>, gap: u64)
    requires
        ts_sorted(s),
        s.len() > 0,
    ensures
        covered_view(s, gap) <= s.last().ts - s[0].ts,
        gap_free(s, gap) ==> covered_view(s, gap) == s.last().ts - s[0].ts,
    decreases s.len(),
{
    if s.len() >= 2 {
        let d = s.drop_last();
        assert(ts_sorted(d));
        law_coverage_is_bounded_by_the_span(d, gap);
        assert(d.last() == s[s.len() - 2]);
        if gap_free(s, gap) {
            assert(gap_free(d, gap)) by {
                assert forall|k: int| 0 < k < d.len() implies !breaks(#[trigger] d[k - 1].ts, d[k].ts, gap) by {
                    assert(d[k - 1] == s[k - 1]);
                    assert(d[k] == s[k]);
                }
            }
            assert(!breaks(s[s.len() - 2].ts, s[s.len() - 1].ts, gap));
        }
    }
}

/// Gaps contribute nothing: coverage across a gap is the coverage on either side of it.
pub proof fn law_a_gap_adds_no_coverage<W>(before: Seq<Sample<W>>, after: Seq<Sample<W>>, gap: u64)
    requires
        before.len() > 0,
        after.len() > 0,
        breaks(before.last().ts, after[0].ts, gap),
    ensures
        covered_view(before + after, gap) == covered_view(before, gap) + covered_view(after, gap),
    decreases after.len(),
{
    if after.len() == 1 {
        let s = before + after;
        assert(s.drop_last() =~= before);
        assert(s[s.len() - 2] == before.last());
        assert(covered_view(after, gap) == 0);
    } else {
        let s = before + after;
        law_a_gap_adds_no_coverage(before, after.drop_last(), gap);
        assert(s.drop_last() =~= before + after.drop_last());
        assert(s[s.len() - 2] == after[after.len() - 2]);
    }
}

/// Charging is not draw: every reading kept for the chart and the statistics was taken on
/// battery, and every reading taken on battery is kept.
pub proof fn law_only_battery_readings_are_kept<W>(s: Seq<Sample<W>>)
    ensures
        forall|k: int| 0 <= k < on_battery(s).len() ==> (#[trigger] on_battery(s)[k]).state
            == State::Discharging,
        forall|k: int| 0 <= k < s.len() && (#[trigger] s[k]).state == State::Discharging
            ==> on_battery(s).contains(s[k]),
{
    let p = |x: Sample<W>| x.state == State::Discharging;
    assert forall|k: int| 0 <= k < on_battery(s).len() implies (#[trigger] on_battery(s)[k]).state
        == State::Discharging by {
        s.lemma_filter_pred(p, k);
    }
    assert forall|k: int| 0 <= k < s.len() && (#[trigger] s[k]).state == State::Discharging
        implies on_battery(s).contains(s[k]) by {
        s.lemma_filter_contains(p, k);
    }
}

/// The first stretch of a gap partition, and the partition of what follows it.
proof fn lemma_partition_head<W>(segs: Seq<Seq<Sample<W>>>, s: Seq<Sample<W>>, gap: u64)
    requires
        is_gap_partition(segs, s, gap),
        segs.len() > 0,
    ensures
        segs[0] == s.take(segs[0].len() as int),
        0 < segs[0].len() <= s.len(),
        forall|k: int| 0 < k < segs[0].len() ==> !breaks(#[trigger] s[k - 1].ts, s[k].ts, gap),
        segs[0].len() < s.len() ==> breaks(
            s[segs[0].len() - 1].ts,
            s[segs[0].len() as int].ts,
            gap,
        ),
        is_gap_partition(segs.drop_first(), s.skip(segs[0].len() as int), gap),
{
    let l = segs[0].len() as int;
    let rest = segs.drop_first();
    assert(segs.flatten() == segs[0] + rest.flatten());
    assert(s.take(l) =~= segs[0]);
    assert(s.skip(l) =~= rest.flatten());
    assert forall|k: int| 0 < k < l implies !breaks(#[trigger] s[k - 1].ts, s[k].ts, gap) by {
        assert(segs[0][k - 1] == s[k - 1]);
        assert(segs[0][k] == s[k]);
        assert(!breaks(segs[0][k - 1].ts, segs[0][k].ts, gap));
    }
    if l < s.len() {
        assert(rest.flatten().len() > 0);
        if rest.len() == 0 {
            assert(rest.flatten() =~= Seq::<Sample<W>>::empty());
        }
        assert(rest.len() > 0);
        assert(rest.flatten() == rest[0] + rest.drop_first().flatten());
        assert(rest[0] == segs[1]);
        assert(segs[1].len() > 0);
        assert(s[l] == rest.flatten()[0]);
        assert(rest.flatten()[0] == segs[1][0]);
        assert(s[l - 1] == segs[0].last());
        assert(breaks(segs[0].last().ts, segs[1][0].ts, gap));
    }
    assert forall|k: int| 0 <= k < rest.len() implies (#[trigger] rest[k]).len() > 0 && gap_free(rest[k], gap) by {
        assert(rest[k] == segs[k + 1]);
    }
    assert forall|k: int| 0 < k < rest.len() implies breaks(#[trigger] rest[k - 1].last().ts, rest[k][0].ts, gap) by {
        assert(rest[k - 1] == segs[k]);
        assert(rest[k] == segs[k + 1]);
    }
}

/// There is only one way to cut a series into its maximal gap-free stretches, so the
/// contract of [`segments`] fixes its result.
pub proof fn law_gap_partition_is_unique<W>(a: Seq<Seq<Sample<W>>>, b: Seq<Seq<Sample<W>>>, s: Seq<Sample<W>>, gap: u64)
    requires
        is_gap_partition(a, s, gap),
        is_gap_partition(b, s, gap),
    ensures
        a == b,
    decreases s.len(),
{
    if a.len() == 0 || b.len() == 0 {
        if a.len() == 0 {
            assert(a.flatten() =~= Seq::<Sample<W>>::empty());
        }
        if b.len() == 0 {
            assert(b.flatten() =~= Seq::<Sample<W>>::empty());
        }
        if a.len() > 0 {
            lemma_partition_head(a, s, gap);
        }
        if b.len() > 0 {
            lemma_partition_head(b, s, gap);
        }
        assert(a =~= b);
    } else {
        lemma_partition_head(a, s, gap);
        lemma_partition_head(b, s, gap);
        let la = a[0].len() as int;
        let lb = b[0].len() as int;
        if la < lb {
            assert(!breaks(s[la - 1].ts, s[la].ts, gap));
        } else if lb < la {
            assert(!breaks(s[lb - 1].ts, s[lb].ts, gap));
        }
        assert(la == lb);
        law_gap_partition_is_unique(a.drop_first(), b.drop_first(), s.skip(la), gap);
        assert(a[0] == b[0]);
        assert(a =~= seq![a[0]] + a.drop_first());
        assert(b =~= seq![b[0]] + b.drop_first());
    }
}

} // verus!
