//! Ordering a window of readings, and the positions of its order statistics.
//!
//! Readings come with the integer key they are ordered by; the window's values are
//! summarised by the caller, and which readings the median and the 90th percentile are
//! taken from is decided here.

use vstd::prelude::*;

verus! {

broadcast use vstd::seq_lib::group_seq_properties;

/// The key `f64::total_cmp` orders a reading by, from the reading's bits: the bits as a
/// signed integer, with the magnitude bits flipped when the sign bit is set, so that
/// ordering keys as integers orders the readings from negative to positive.
pub open spec fn total_order_key_view(bits: u64) -> i64 {
    let b = bits as i64;
    if b < 0 { (b ^ 0x7fff_ffff_ffff_ffff) as i64 } else { b }
}

pub fn total_order_key(bits: u64) -> (k: i64)
    ensures
        k == total_order_key_view(bits),
{
    let b = bits as i64;
    if b < 0 {
        b ^ 0x7fff_ffff_ffff_ffff
    } else {
        b
    }
}

/// Number of leading readings whose key is at or below `k`.
pub open spec fn lead_keys_at_or_below<W>(s: Seq<(i64, W)>, k: i64) -> nat
    decreases s.len(),
{
    if s.len() > 0 && s[0].0 <= k {
        1 + lead_keys_at_or_below(s.drop_first(), k)
    } else {
        0
    }
}

/// Readings in key order; readings with equal keys keep their relative order.
pub open spec fn sort_by_rank<W>(s: Seq<(i64, W)>) -> Seq<(i64, W)>
    decreases s.len(),
{
    if s.len() == 0 {
        s
    } else {
        let t = sort_by_rank(s.drop_last());
        t.insert(lead_keys_at_or_below(t, s.last().0) as int, s.last())
    }
}

/// Keys never decrease along `s`.
pub open spec fn rank_sorted<W>(s: Seq<(i64, W)>) -> bool {
    forall|i: int, j: int| 0 <= i <= j < s.len() ==> s[i].0 <= s[j].0
}

fn count_keys_at_or_below<W>(s: &Vec<(i64, W)>, k: i64) -> (r: usize)
    ensures
        r == lead_keys_at_or_below(s@, k),
        r <= s@.len(),
{
    let n = s.len();
    let mut i: usize = 0;
    assert(s@.skip(0) =~= s@);
    while i < n && s[i].0 <= k
        invariant
            n == s@.len(),
            i <= n,
            lead_keys_at_or_below(s@, k) == i + lead_keys_at_or_below(s@.skip(i as int), k),
        decreases n - i,
    {
        assert(s@.skip(i as int).drop_first() =~= s@.skip(i + 1));
        i = i + 1;
    }
    i
}

/// A window of keyed readings in ascending key order, by stable insertion.
pub fn sort_readings<W: Copy>(keyed: &[(i64, W)]) -> (sorted: Vec<(i64, W)>)
    ensures
        sorted@ == sort_by_rank(keyed@),
{
    let n = keyed.len();
    let mut out: Vec<(i64, W)> = Vec::new();
    let mut i: usize = 0;
    assert(keyed@.take(0) =~= Seq::<(i64, W)>::empty());
    while i < n
        invariant
            n == keyed@.len(),
            i <= n,
            out@ == sort_by_rank(keyed@.take(i as int)),
        decreases n - i,
    {
        let x = keyed[i];
        let pos = count_keys_at_or_below(&out, x.0);
        proof {
            assert(keyed@.take(i + 1).drop_last() =~= keyed@.take(i as int));
            assert(keyed@.take(i + 1).last() == x);
        }
        out.insert(pos, x);
        i = i + 1;
    }
    assert(keyed@.take(n as int) =~= keyed@);
    out
}

proof fn lemma_lead_keys<W>(s: Seq<(i64, W)>, k: i64)
    ensures
        lead_keys_at_or_below(s, k) <= s.len(),
        forall|q: int| 0 <= q < lead_keys_at_or_below(s, k) ==> s[q].0 <= k,
        lead_keys_at_or_below(s, k) < s.len() ==> s[lead_keys_at_or_below(s, k) as int].0 > k,
    decreases s.len(),
{
    if s.len() > 0 && s[0].0 <= k {
        lemma_lead_keys(s.drop_first(), k);
    }
}

/// Ordering a window puts its keys in ascending order and keeps exactly its readings.
pub proof fn law_sorting_orders_and_keeps_readings<W>(s: Seq<(i64, W)>)
    ensures
        rank_sorted(sort_by_rank(s)),
        sort_by_rank(s).to_multiset() == s.to_multiset(),
    decreases s.len(),
{
    if s.len() > 0 {
        law_sorting_orders_and_keeps_readings(s.drop_last());
        let t = sort_by_rank(s.drop_last());
        let x = s.last();
        let p = lead_keys_at_or_below(t, x.0) as int;
        lemma_lead_keys(t, x.0);
        vstd::seq_lib::to_multiset_insert(t, p, x);
        vstd::seq_lib::to_multiset_build(s.drop_last(), x);
        assert(s.drop_last().push(x) =~= s);
        let r = t.insert(p, x);
        assert forall|i: int, j: int| 0 <= i <= j < r.len() implies r[i].0 <= r[j].0 by {
            if i < p && j > p {
                assert(r[j] == t[j - 1]);
            } else if i == p && j > p {
                assert(r[j] == t[j - 1]);
            } else if i > p {
                assert(r[i] == t[i - 1]);
                assert(r[j] == t[j - 1]);
            }
        }
    }
}

/// Position of the 90th percentile in an ascending window of `n` readings, by nearest
/// rank: the rank ⌈0.9 n⌉, less one.
pub open spec fn p90_position(n: int) -> int {
    n - n / 10 - 1
}

/// Positions of the middle pair of an ascending window of `n` readings.
pub open spec fn median_low(n: int) -> int {
    (n - 1) / 2
}

pub open spec fn median_high(n: int) -> int {
    n / 2
}

/// Position of the 90th percentile in an ascending window of `n` readings, by nearest
/// rank: the smallest rank `k` with `k ≥ 0.9 n`, less one. Always a reading that
/// actually occurred.
pub fn p90_index(n: usize) -> (i: usize)
    requires
        n >= 1,
    ensures
        i == p90_position(n as int),
        i < n,
        10 * (i + 1) >= 9 * n,
        10 * i < 9 * n,
{
    let k = n - n / 10;
    assert(k >= 1 && 10 * k >= 9 * n && 10 * (k - 1) < 9 * n) by (nonlinear_arith)
        requires
            k == n - n / 10,
            n >= 1,
    ;
    k - 1
}

/// Positions of the middle pair of an ascending window of `n` readings: the same position
/// twice when `n` is odd, the two middle ones when it is even. The median is their mean.
pub fn median_positions(n: usize) -> (r: (usize, usize))
    requires
        n >= 1,
    ensures
        r == (median_low(n as int) as usize, median_high(n as int) as usize),
        r.0 <= r.1 < n,
        r.0 + r.1 == n - 1,
        r.1 - r.0 <= 1,
{
    if n % 2 == 0 {
        (n / 2 - 1, n / 2)
    } else {
        (n / 2, n / 2)
    }
}

/// In an ascending window the order statistics come in order: least, the middle pair,
/// the 90th percentile, greatest.
pub proof fn law_order_statistics_in_order(n: int)
    requires
        n >= 1,
    ensures
        0 <= median_low(n) <= median_high(n) <= p90_position(n) < n,
{
    assert(0 <= (n - 1) / 2 <= n / 2 <= n - n / 10 - 1 < n) by (nonlinear_arith)
        requires
            n >= 1,
    ;
}

} // verus!
