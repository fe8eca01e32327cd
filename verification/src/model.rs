//! The mathematical model: ordered sequences, the stable merge of two
//! sequences, and the merge sort of a sequence.

use vstd::prelude::*;

verus! {

/// `s` is in non-decreasing order: no element is greater than a later one.
pub open spec fn sorted(s: Seq<i32>) -> bool {
    forall|i: int, j: int| 0 <= i <= j < s.len() ==> s[i] <= s[j]
}

/// Every element of `s` is at least `x`.
pub open spec fn bounded_below(s: Seq<i32>, x: int) -> bool {
    forall|i: int| 0 <= i < s.len() ==> x <= #[trigger] s[i]
}

/// The stable merge of `a` and `b`: the next element is the head of `a`
/// unless `a` is used up or the head of `b` is strictly smaller. Between
/// equal heads the one of `a` goes first.
pub open spec fn merged(a: Seq<i32>, b: Seq<i32>) -> Seq<i32>
    decreases a.len() + b.len(),
{
    if a.len() > 0 && (b.len() == 0 || a[0] <= b[0]) {
        seq![a[0]] + merged(a.skip(1), b)
    } else if b.len() > 0 {
        seq![b[0]] + merged(a, b.skip(1))
    } else {
        Seq::empty()
    }
}

/// Where a range of `len` elements is cut in two: the left part has
/// `len / 2` elements, rounded down.
pub open spec fn midpoint(len: nat) -> int {
    len as int / 2
}

/// The merge sort of `s`: a sequence of at most one element is its own
/// sort; a longer one is cut at its midpoint, and the sorts of the two
/// parts are merged.
pub open spec fn merge_sorted(s: Seq<i32>) -> Seq<i32>
    decreases s.len(),
{
    if s.len() <= 1 {
        s
    } else {
        merged(
            merge_sorted(s.subrange(0, midpoint(s.len()))),
            merge_sorted(s.subrange(midpoint(s.len()), s.len() as int)),
        )
    }
}

} // verus!
