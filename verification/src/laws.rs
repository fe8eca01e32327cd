//! What holds of the stable merge and of the merge sort.

use vstd::prelude::*;
use crate::model::{bounded_below, merge_sorted, merged, midpoint, sorted};

verus! {

/// Merging with an empty sequence gives the other sequence.
pub proof fn lemma_merged_empty(a: Seq<i32>)
    ensures
        merged(a, Seq::empty()) == a,
        merged(Seq::empty(), a) == a,
    decreases a.len(),
{
    if a.len() > 0 {
        lemma_merged_empty(a.skip(1));
    }
}

/// The merge has as many elements as its two arguments together.
pub proof fn lemma_merged_len(a: Seq<i32>, b: Seq<i32>)
    ensures
        merged(a, b).len() == a.len() + b.len(),
    decreases a.len() + b.len(),
{
    if a.len() > 0 && (b.len() == 0 || a[0] <= b[0]) {
        lemma_merged_len(a.skip(1), b);
    } else if b.len() > 0 {
        lemma_merged_len(a, b.skip(1));
    }
}

/// The merge holds the elements of its two arguments, each as often as
/// they hold it together.
pub proof fn lemma_merged_multiset(a: Seq<i32>, b: Seq<i32>)
    ensures
        merged(a, b).to_multiset() == a.to_multiset().add(b.to_multiset()),
    decreases a.len() + b.len(),
{
    broadcast use vstd::multiset::group_multiset_axioms;
    if a.len() > 0 && (b.len() == 0 || a[0] <= b[0]) {
        lemma_merged_multiset(a.skip(1), b);
        vstd::seq_lib::lemma_multiset_commutative(seq![a[0]], merged(a.skip(1), b));
        vstd::seq_lib::lemma_multiset_commutative(seq![a[0]], a.skip(1));
        assert(seq![a[0]] + a.skip(1) =~= a);
    } else if b.len() > 0 {
        lemma_merged_multiset(a, b.skip(1));
        vstd::seq_lib::lemma_multiset_commutative(seq![b[0]], merged(a, b.skip(1)));
        vstd::seq_lib::lemma_multiset_commutative(seq![b[0]], b.skip(1));
        assert(seq![b[0]] + b.skip(1) =~= b);
    } else {
        vstd::seq_lib::lemma_multiset_commutative(a, b);
        assert(a + b =~= merged(a, b));
    }
}

/// A lower bound of both arguments is a lower bound of their merge.
pub proof fn lemma_merged_bounded_below(a: Seq<i32>, b: Seq<i32>, x: int)
    requires
        bounded_below(a, x),
        bounded_below(b, x),
    ensures
        bounded_below(merged(a, b), x),
    decreases a.len() + b.len(),
{
    if a.len() > 0 && (b.len() == 0 || a[0] <= b[0]) {
        lemma_merged_bounded_below(a.skip(1), b, x);
    } else if b.len() > 0 {
        lemma_merged_bounded_below(a, b.skip(1), x);
    }
}

/// The merge of two ordered sequences is ordered.
pub proof fn lemma_merged_sorted(a: Seq<i32>, b: Seq<i32>)
    requires
        sorted(a),
        sorted(b),
    ensures
        sorted(merged(a, b)),
    decreases a.len() + b.len(),
{
    if a.len() > 0 && (b.len() == 0 || a[0] <= b[0]) {
        lemma_merged_sorted(a.skip(1), b);
        assert(bounded_below(a.skip(1), a[0] as int));
        assert(bounded_below(b, a[0] as int));
        lemma_merged_bounded_below(a.skip(1), b, a[0] as int);
    } else if b.len() > 0 {
        lemma_merged_sorted(a, b.skip(1));
        assert(bounded_below(b.skip(1), b[0] as int));
        assert(bounded_below(a, b[0] as int));
        lemma_merged_bounded_below(a, b.skip(1), b[0] as int);
    }
}

/// Two sequences that are ordered when put one after the other merge to
/// just that: the one after the other.
pub proof fn lemma_merged_of_sorted_concat(a: Seq<i32>, b: Seq<i32>)
    requires
        sorted(a + b),
    ensures
        merged(a, b) == a + b,
    decreases a.len(),
{
    if a.len() == 0 {
        lemma_merged_empty(b);
        assert(a =~= Seq::empty());
    } else {
        assert((a + b)[0] == a[0]);
        if b.len() > 0 {
            assert((a + b)[a.len() as int] == b[0]);
        }
        assert((a + b).subrange(1, (a + b).len() as int) =~= a.skip(1) + b);
        lemma_merged_of_sorted_concat(a.skip(1), b);
    }
}

/// The merge sort of a sequence has the length of the sequence.
pub proof fn lemma_merge_sorted_len(s: Seq<i32>)
    ensures
        merge_sorted(s).len() == s.len(),
    decreases s.len(),
{
    if s.len() > 1 {
        let m = midpoint(s.len());
        lemma_merge_sorted_len(s.subrange(0, m));
        lemma_merge_sorted_len(s.subrange(m, s.len() as int));
        lemma_merged_len(
            merge_sorted(s.subrange(0, m)),
            merge_sorted(s.subrange(m, s.len() as int)),
        );
    }
}

/// A sequence of at most one element is its own merge sort: the empty
/// sequence stays empty, and a single element stays where it is.
pub proof fn lemma_merge_sorted_short(s: Seq<i32>)
    requires
        s.len() <= 1,
    ensures
        merge_sorted(s) == s,
{
}

/// The merge sort of any sequence is in non-decreasing order; in
/// particular no element is greater than the one that follows it.
pub proof fn lemma_merge_sorted_is_sorted(s: Seq<i32>)
    ensures
        sorted(merge_sorted(s)),
        forall|i: int|
            0 <= i && i + 1 < merge_sorted(s).len() ==> #[trigger] merge_sorted(s)[i]
                <= merge_sorted(s)[i + 1],
    decreases s.len(),
{
    if s.len() > 1 {
        let m = midpoint(s.len());
        lemma_merge_sorted_is_sorted(s.subrange(0, m));
        lemma_merge_sorted_is_sorted(s.subrange(m, s.len() as int));
        lemma_merged_sorted(
            merge_sorted(s.subrange(0, m)),
            merge_sorted(s.subrange(m, s.len() as int)),
        );
    }
}

/// The merge sort of any sequence holds the elements of the sequence, each
/// as often as the sequence holds it: none is added, dropped or changed.
pub proof fn lemma_merge_sorted_permutes(s: Seq<i32>)
    ensures
        merge_sorted(s).to_multiset() == s.to_multiset(),
        merge_sorted(s).len() == s.len(),
    decreases s.len(),
{
    lemma_merge_sorted_len(s);
    if s.len() > 1 {
        let m = midpoint(s.len());
        let left = s.subrange(0, m);
        let right = s.subrange(m, s.len() as int);
        lemma_merge_sorted_permutes(left);
        lemma_merge_sorted_permutes(right);
        lemma_merged_multiset(merge_sorted(left), merge_sorted(right));
        vstd::seq_lib::lemma_multiset_commutative(left, right);
        assert(left + right =~= s);
    }
}

/// An ordered sequence is its own merge sort.
pub proof fn lemma_merge_sorted_of_sorted(s: Seq<i32>)
    requires
        sorted(s),
    ensures
        merge_sorted(s) == s,
    decreases s.len(),
{
    if s.len() > 1 {
        let m = midpoint(s.len());
        let left = s.subrange(0, m);
        let right = s.subrange(m, s.len() as int);
        lemma_merge_sorted_of_sorted(left);
        lemma_merge_sorted_of_sorted(right);
        lemma_merged_of_sorted_concat(left, right);
    }
}

/// Two ordered sequences that hold the same elements, each as often, are
/// equal.
pub proof fn lemma_sorted_permutation_unique(a: Seq<i32>, b: Seq<i32>)
    requires
        sorted(a),
        sorted(b),
        a.to_multiset() == b.to_multiset(),
    ensures
        a == b,
{
    let leq = |x: i32, y: i32| x <= y;
    vstd::seq_lib::lemma_sorted_unique(a, b, leq);
}

/// The merge sort of a sequence is the one ordered arrangement of its
/// elements: every ordered sequence that holds the same elements, each as
/// often, is the merge sort.
pub proof fn lemma_merge_sorted_unique(s: Seq<i32>, t: Seq<i32>)
    requires
        sorted(t),
        t.to_multiset() == s.to_multiset(),
    ensures
        t == merge_sorted(s),
{
    lemma_merge_sorted_is_sorted(s);
    lemma_merge_sorted_permutes(s);
    lemma_sorted_permutation_unique(t, merge_sorted(s));
}

/// Sorting is idempotent: the merge sort of a merge sort is that merge
/// sort again, for every sequence.
pub proof fn lemma_merge_sorted_idempotent(s: Seq<i32>)
    ensures
        merge_sorted(merge_sorted(s)) == merge_sorted(s),
{
    lemma_merge_sorted_is_sorted(s);
    lemma_merge_sorted_of_sorted(merge_sorted(s));
}

} // verus!
