//! Ordering of match results: a stable descending insertion sort, specified
//! exactly so that the pipeline's output order is a function of its input.
//!
//! Results are ordered by `probability` descending. Ties keep their input
//! order (the insertion point of a new result lies past every result whose
//! probability is at least as large), so the whole output sequence is pinned
//! by the spec, not just its sortedness.

use vstd::prelude::*;
use vstd::seq_lib::to_multiset_insert;
use vstd::seq_lib::to_multiset_build;
use crate::models::MatchResult;

verus! {

/// Whether a sequence of results is ordered by probability descending.
pub open spec fn sorted_desc(s: Seq<MatchResult>) -> bool {
    forall|i: int, j: int| 0 <= i <= j < s.len() ==> s[i].probability >= s[j].probability
}

/// The index at which a stable descending insertion places `x`: past every
/// element whose probability is at least `x`'s.
pub open spec fn insertion_point(s: Seq<MatchResult>, x: MatchResult) -> int
    decreases s.len(),
{
    if s.len() == 0 {
        0
    } else if x.probability > s[0].probability {
        0
    } else {
        1 + insertion_point(s.drop_first(), x)
    }
}

/// `s` with `x` inserted at its stable descending insertion point.
pub open spec fn insert_desc(s: Seq<MatchResult>, x: MatchResult) -> Seq<MatchResult> {
    s.insert(insertion_point(s, x), x)
}

/// The stable descending sort of `s`: each element, in input order, inserted
/// at its insertion point among the already sorted earlier elements.
pub open spec fn sort_desc(s: Seq<MatchResult>) -> Seq<MatchResult>
    decreases s.len(),
{
    if s.len() == 0 {
        Seq::empty()
    } else {
        insert_desc(sort_desc(s.drop_last()), s.last())
    }
}

/// The insertion point is a valid index, every element before it has a
/// probability at least `x`'s, and the element at it (if any) has a smaller
/// probability than `x`'s.
pub proof fn lemma_insertion_point(s: Seq<MatchResult>, x: MatchResult)
    ensures
        0 <= insertion_point(s, x) <= s.len(),
        forall|j: int| 0 <= j < insertion_point(s, x) ==> s[j].probability >= x.probability,
        insertion_point(s, x) < s.len() ==> x.probability > s[insertion_point(s, x)].probability,
    decreases s.len(),
{
    if s.len() == 0 {
    } else if x.probability > s[0].probability {
    } else {
        lemma_insertion_point(s.drop_first(), x);
        let k = insertion_point(s, x);
        assert forall|j: int| 0 <= j < k implies s[j].probability >= x.probability by {
            if j >= 1 {
                assert(s.drop_first()[j - 1] == s[j]);
            }
        }
        if k < s.len() {
            assert(s.drop_first()[k - 1] == s[k]);
        }
    }
}

/// Any index with the three properties of `lemma_insertion_point` is the
/// insertion point; this lets executable code find it by a forward scan.
pub proof fn lemma_insertion_point_unique(s: Seq<MatchResult>, x: MatchResult, k: int)
    requires
        0 <= k <= s.len(),
        forall|j: int| 0 <= j < k ==> s[j].probability >= x.probability,
        k < s.len() ==> x.probability > s[k].probability,
    ensures
        insertion_point(s, x) == k,
    decreases s.len(),
{
    if s.len() == 0 {
    } else if x.probability > s[0].probability {
        assert(k == 0) by {
            if k > 0 {
                assert(s[0].probability >= x.probability);
            }
        }
    } else {
        assert(k >= 1);
        assert forall|j: int| 0 <= j < k - 1 implies s.drop_first()[j].probability
            >= x.probability by {
            assert(s.drop_first()[j] == s[j + 1]);
        }
        if k - 1 < s.drop_first().len() {
            assert(s.drop_first()[k - 1] == s[k]);
        }
        lemma_insertion_point_unique(s.drop_first(), x, k - 1);
    }
}

/// Inserting into a descending-sorted sequence keeps it descending-sorted.
pub proof fn lemma_insert_desc_sorted(s: Seq<MatchResult>, x: MatchResult)
    requires
        sorted_desc(s),
    ensures
        sorted_desc(insert_desc(s, x)),
{
    lemma_insertion_point(s, x);
    let k = insertion_point(s, x);
    s.insert_ensures(k, x);
    let t = insert_desc(s, x);
    assert forall|i: int, j: int| 0 <= i <= j < t.len() implies t[i].probability
        >= t[j].probability by {
        if i < k {
            assert(t[i] == s[i]);
        } else if i > k {
            assert(t[i] == s[i - 1]);
        }
        if j < k {
            assert(t[j] == s[j]);
        } else if j > k {
            assert(t[j] == s[j - 1]);
        }
    }
}

/// Insertion adds exactly `x` to the sequence's multiset of elements.
pub proof fn lemma_insert_desc_multiset(s: Seq<MatchResult>, x: MatchResult)
    ensures
        insert_desc(s, x).to_multiset() == s.to_multiset().insert(x),
{
    lemma_insertion_point(s, x);
    to_multiset_insert(s, insertion_point(s, x), x);
}

/// The sorted sequence is ordered by probability descending.
pub proof fn lemma_sort_desc_sorted(s: Seq<MatchResult>)
    ensures
        sorted_desc(sort_desc(s)),
    decreases s.len(),
{
    if s.len() > 0 {
        lemma_sort_desc_sorted(s.drop_last());
        lemma_insert_desc_sorted(sort_desc(s.drop_last()), s.last());
    }
}

/// Sorting permutes the sequence: its multiset of elements is unchanged.
pub proof fn lemma_sort_desc_multiset(s: Seq<MatchResult>)
    ensures
        sort_desc(s).to_multiset() == s.to_multiset(),
    decreases s.len(),
{
    if s.len() > 0 {
        let dl = s.drop_last();
        let x = s.last();
        lemma_sort_desc_multiset(dl);
        lemma_insert_desc_multiset(sort_desc(dl), x);
        to_multiset_build(dl, x);
        assert(dl.push(x) =~= s);
    } else {
        assert(s =~= Seq::<MatchResult>::empty());
    }
}

/// Sorting neither adds nor drops elements: membership is unchanged.
pub proof fn lemma_sort_desc_contains(s: Seq<MatchResult>, m: MatchResult)
    ensures
        sort_desc(s).contains(m) <==> s.contains(m),
{
    lemma_sort_desc_multiset(s);
    broadcast use vstd::seq_lib::group_to_multiset_ensures;

    assert(sort_desc(s).to_multiset().count(m) == s.to_multiset().count(m));
}

/// Inserts `x` into the descending-sorted vector `v` at its stable
/// insertion point, keeping the vector sorted.
pub fn insert_sorted_desc(v: &mut Vec<MatchResult>, x: MatchResult)
    ensures
        final(v)@ == insert_desc(old(v)@, x),
{
    let mut k: usize = 0;
    while k < v.len() && v[k].probability >= x.probability
        invariant
            k <= v@.len(),
            v@ == old(v)@,
            forall|j: int| 0 <= j < k ==> v@[j].probability >= x.probability,
        decreases v@.len() - k,
    {
        k = k + 1;
    }
    proof {
        lemma_insertion_point_unique(v@, x, k as int);
    }
    v.insert(k, x);
}

} // verus!
