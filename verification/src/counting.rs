//! Counting timestamps that fall inside a closed interval, and the facts
//! about such counts that the departure index and the sliding window share.

use vstd::prelude::*;

use crate::time::Time;

verus! {

/// Whether `t` lies in the closed interval `[lo, hi]`.
pub open spec fn in_range(lo: int, hi: int, t: Time) -> bool {
    lo <= t.seconds <= hi
}

/// How many entries of `s` lie in the closed interval `[lo, hi]`.
pub open spec fn count_in(s: Seq<Time>, lo: int, hi: int) -> nat
    decreases s.len(),
{
    if s.len() == 0 {
        0
    } else {
        count_in(s.drop_last(), lo, hi) + (if in_range(lo, hi, s.last()) {
            1nat
        } else {
            0nat
        })
    }
}

/// Whether `s` is sorted by time, non-decreasing.
pub open spec fn sorted_times(s: Seq<Time>) -> bool {
    forall|i: int, j: int| 0 <= i <= j < s.len() ==> s[i].seconds <= s[j].seconds
}

/// Appending one entry adds its own contribution to the count.
pub proof fn lemma_count_in_push(s: Seq<Time>, x: Time, lo: int, hi: int)
    ensures
        count_in(s.push(x), lo, hi) == count_in(s, lo, hi) + (if in_range(lo, hi, x) {
            1nat
        } else {
            0nat
        }),
{
    assert(s.push(x).drop_last() =~= s);
}

/// Counts add up across concatenation.
pub proof fn lemma_count_in_concat(a: Seq<Time>, b: Seq<Time>, lo: int, hi: int)
    ensures
        count_in(a + b, lo, hi) == count_in(a, lo, hi) + count_in(b, lo, hi),
    decreases b.len(),
{
    if b.len() == 0 {
        assert(a + b =~= a);
    } else {
        assert((a + b).drop_last() =~= a + b.drop_last());
        assert((a + b).last() == b.last());
        lemma_count_in_concat(a, b.drop_last(), lo, hi);
    }
}

/// A sequence none of whose entries lie in the interval counts zero.
pub proof fn lemma_count_in_none(s: Seq<Time>, lo: int, hi: int)
    requires
        forall|i: int| 0 <= i < s.len() ==> !in_range(lo, hi, #[trigger] s[i]),
    ensures
        count_in(s, lo, hi) == 0,
    decreases s.len(),
{
    if s.len() > 0 {
        lemma_count_in_none(s.drop_last(), lo, hi);
    }
}

/// A sequence all of whose entries lie in the interval counts its length.
pub proof fn lemma_count_in_all(s: Seq<Time>, lo: int, hi: int)
    requires
        forall|i: int| 0 <= i < s.len() ==> in_range(lo, hi, #[trigger] s[i]),
    ensures
        count_in(s, lo, hi) == s.len(),
    decreases s.len(),
{
    if s.len() > 0 {
        lemma_count_in_all(s.drop_last(), lo, hi);
    }
}

/// Removing one entry removes exactly its own contribution.
pub proof fn lemma_count_in_remove(s: Seq<Time>, i: int, lo: int, hi: int)
    requires
        0 <= i < s.len(),
    ensures
        count_in(s, lo, hi) == count_in(s.remove(i), lo, hi) + (if in_range(lo, hi, s[i]) {
            1nat
        } else {
            0nat
        }),
    decreases s.len(),
{
    if i == s.len() - 1 {
        assert(s.remove(i) =~= s.drop_last());
    } else {
        assert(s.remove(i).drop_last() =~= s.drop_last().remove(i));
        assert(s.remove(i).last() == s.last());
        lemma_count_in_remove(s.drop_last(), i, lo, hi);
    }
}

/// Counts are invariant under permutation: two sequences that hold the same
/// entries the same number of times count alike on every interval.
pub proof fn lemma_count_in_permutation(s1: Seq<Time>, s2: Seq<Time>, lo: int, hi: int)
    requires
        s1.to_multiset() == s2.to_multiset(),
    ensures
        count_in(s1, lo, hi) == count_in(s2, lo, hi),
    decreases s1.len(),
{
    broadcast use vstd::seq_lib::group_to_multiset_ensures;

    if s1.len() == 0 {
        assert(s2.to_multiset().len() == 0);
        assert(s2.len() == 0);
    } else {
        let x = s1.last();
        let prefix = s1.drop_last();
        assert(s1 =~= prefix.push(x));
        assert(s1.to_multiset().count(x) > 0) by {
            assert(s1.contains(x));
        }
        assert(s2.to_multiset().count(x) > 0);
        assert(s2.contains(x));
        let i = choose|i: int| 0 <= i < s2.len() && s2[i] == x;
        assert(prefix.to_multiset() =~= s2.remove(i).to_multiset()) by {
            assert(s1.remove(s1.len() - 1) =~= prefix);
            assert(prefix.to_multiset() =~= s1.to_multiset().remove(x));
            assert(s2.remove(i).to_multiset() =~= s2.to_multiset().remove(s2[i]));
        }
        lemma_count_in_permutation(prefix, s2.remove(i), lo, hi);
        lemma_count_in_remove(s2, i, lo, hi);
        lemma_count_in_push(prefix, x, lo, hi);
    }
}

} // verus!
