//! Stable ordering of named items by their names.

use vstd::prelude::*;
use crate::text::{lex_le, lex_le_str, lemma_lex_le_total, lemma_lex_le_transitive};

verus! {

broadcast use vstd::seq_lib::group_seq_properties;

/// Something ordered by a name.
pub trait Keyed: Sized {
    spec fn sort_key(&self) -> Seq<char>;

    fn key(&self) -> (k: &str)
        ensures
            k@ == self.sort_key(),
    ;
}

/// Number of leading items whose name sorts at or before `key`.
pub open spec fn lead_keyed_at_or_before<T: Keyed>(s: Seq<T>, key: Seq<char>) -> nat
    decreases s.len(),
{
    if s.len() > 0 && lex_le(s[0].sort_key(), key) {
        1 + lead_keyed_at_or_before(s.drop_first(), key)
    } else {
        0
    }
}

/// Items in name order; items with equal names keep their relative order.
pub open spec fn sort_by_key<T: Keyed>(s: Seq<T>) -> Seq<T>
    decreases s.len(),
{
    if s.len() == 0 {
        s
    } else {
        let t = sort_by_key(s.drop_last());
        t.insert(lead_keyed_at_or_before(t, s.last().sort_key()) as int, s.last())
    }
}

fn count_keyed_at_or_before<T: Keyed>(s: &Vec<T>, key: &str) -> (r: usize)
    ensures
        r == lead_keyed_at_or_before(s@, key@),
        r <= s@.len(),
{
    let n = s.len();
    let mut i: usize = 0;
    assert(s@.skip(0) =~= s@);
    while i < n && lex_le_str(s[i].key(), key)
        invariant
            n == s@.len(),
            i <= n,
            lead_keyed_at_or_before(s@, key@) == i + lead_keyed_at_or_before(
                s@.skip(i as int),
                key@,
            ),
        decreases n - i,
    {
        assert(s@.skip(i as int).drop_first() =~= s@.skip(i + 1));
        i = i + 1;
    }
    i
}

/// Items in name order, by stable insertion.
pub fn sort_keyed<T: Keyed>(items: Vec<T>) -> (out: Vec<T>)
    ensures
        out@ == sort_by_key(items@),
{
    let ghost orig = items@;
    let mut rest = items;
    let mut out: Vec<T> = Vec::new();
    let ghost mut i: int = 0;
    assert(orig.skip(0) =~= orig);
    assert(orig.take(0) =~= Seq::<T>::empty());
    while rest.len() > 0
        invariant
            0 <= i <= orig.len(),
            rest@ == orig.skip(i),
            out@ == sort_by_key(orig.take(i)),
        decreases rest@.len(),
    {
        let x = rest.remove(0);
        proof {
            assert(x == orig[i]);
            assert(orig.skip(i).remove(0) =~= orig.skip(i + 1));
            assert(orig.take(i + 1).drop_last() =~= orig.take(i));
        }
        let pos = count_keyed_at_or_before(&out, x.key());
        out.insert(pos, x);
        proof {
            i = i + 1;
        }
    }
    assert(orig.take(i) =~= orig);
    out
}

/// Names never decrease along `s`.
pub open spec fn key_sorted<T: Keyed>(s: Seq<T>) -> bool {
    forall|i: int, j: int| 0 <= i <= j < s.len() ==> lex_le(s[i].sort_key(), s[j].sort_key())
}

proof fn lemma_lead_keyed<T: Keyed>(s: Seq<T>, key: Seq<char>)
    ensures
        lead_keyed_at_or_before(s, key) <= s.len(),
        forall|k: int| 0 <= k < lead_keyed_at_or_before(s, key) ==> lex_le(s[k].sort_key(), key),
        lead_keyed_at_or_before(s, key) < s.len() ==> !lex_le(
            s[lead_keyed_at_or_before(s, key) as int].sort_key(),
            key,
        ),
    decreases s.len(),
{
    if s.len() > 0 && lex_le(s[0].sort_key(), key) {
        lemma_lead_keyed(s.drop_first(), key);
    }
}

proof fn lemma_insert_keyed<T: Keyed>(t: Seq<T>, x: T)
    requires
        key_sorted(t),
    ensures
        key_sorted(t.insert(lead_keyed_at_or_before(t, x.sort_key()) as int, x)),
        t.insert(lead_keyed_at_or_before(t, x.sort_key()) as int, x).to_multiset()
            == t.to_multiset().insert(x),
{
    let p = lead_keyed_at_or_before(t, x.sort_key()) as int;
    lemma_lead_keyed(t, x.sort_key());
    vstd::seq_lib::to_multiset_insert(t, p, x);
    let r = t.insert(p, x);
    if p < t.len() {
        lemma_lex_le_total(t[p].sort_key(), x.sort_key());
    }
    assert forall|i: int, j: int| 0 <= i <= j < r.len() implies lex_le(
        r[i].sort_key(),
        r[j].sort_key(),
    ) by {
        if i < p && j < p {
        } else if i < p && j == p {
        } else if i < p && j > p {
            assert(r[j] == t[j - 1]);
            lemma_lex_le_transitive(t[i].sort_key(), t[p].sort_key(), t[j - 1].sort_key());
            lemma_lex_le_total(t[i].sort_key(), x.sort_key());
        } else if i == p && j == p {
            lemma_lex_le_total(x.sort_key(), x.sort_key());
        } else if i == p && j > p {
            assert(r[j] == t[j - 1]);
            lemma_lex_le_transitive(x.sort_key(), t[p].sort_key(), t[j - 1].sort_key());
        } else {
            assert(r[i] == t[i - 1]);
            assert(r[j] == t[j - 1]);
        }
    }
}

/// Sorting by name puts names in order and keeps exactly the items it was given.
pub proof fn law_sort_by_key_orders_and_keeps_items<T: Keyed>(s: Seq<T>)
    ensures
        key_sorted(sort_by_key(s)),
        sort_by_key(s).to_multiset() == s.to_multiset(),
    decreases s.len(),
{
    if s.len() > 0 {
        law_sort_by_key_orders_and_keeps_items(s.drop_last());
        lemma_insert_keyed(sort_by_key(s.drop_last()), s.last());
        vstd::seq_lib::to_multiset_build(s.drop_last(), s.last());
        assert(s.drop_last().push(s.last()) =~= s);
    }
}

} // verus!
