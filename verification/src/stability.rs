//! Stability: where each element of a merge sort came from. Elements are
//! told apart by their positions in the input, and equal elements are shown
//! to keep the order that they had there.

use vstd::prelude::*;
use crate::model::{merge_sorted, merged, midpoint};

verus! {

/// The element of `s` at the position `p` goes before the one at `q` in a
/// stable sort: it is smaller, or equal and earlier in `s`.
pub open spec fn goes_before(s: Seq<i32>, p: int, q: int) -> bool {
    s[p] < s[q] || (s[p] == s[q] && p < q)
}

/// Each position in `ps` goes before every later one.
pub open spec fn stably_ordered(s: Seq<i32>, ps: Seq<int>) -> bool {
    forall|i: int, j: int| 0 <= i < j < ps.len() ==> goes_before(s, ps[i], ps[j])
}

/// The position `p` goes before every position in `ps`.
pub open spec fn goes_before_all(s: Seq<i32>, p: int, ps: Seq<int>) -> bool {
    forall|i: int| 0 <= i < ps.len() ==> goes_before(s, p, #[trigger] ps[i])
}

/// Every position in `ps` lies in `from..to`.
pub open spec fn within(ps: Seq<int>, from: int, to: int) -> bool {
    forall|i: int| 0 <= i < ps.len() ==> from <= #[trigger] ps[i] < to
}

/// The elements of `s` at the positions `ps`, in the order of `ps`.
pub open spec fn values_at(s: Seq<i32>, ps: Seq<int>) -> Seq<i32> {
    Seq::new(ps.len(), |i: int| s[ps[i]])
}

/// The stable merge, told by positions: `a` and `b` hold positions of `s`,
/// and the merge compares the elements that stand there.
pub open spec fn merged_positions(s: Seq<i32>, a: Seq<int>, b: Seq<int>) -> Seq<int>
    decreases a.len() + b.len(),
{
    if a.len() > 0 && (b.len() == 0 || s[a[0]] <= s[b[0]]) {
        seq![a[0]] + merged_positions(s, a.skip(1), b)
    } else if b.len() > 0 {
        seq![b[0]] + merged_positions(s, a, b.skip(1))
    } else {
        Seq::empty()
    }
}

/// The merge sort of the range `from..to` of `s`, told by positions: the
/// result holds, for each place of the sorted range, the position of `s`
/// whose element the sort puts there.
pub open spec fn sorted_positions(s: Seq<i32>, from: int, to: int) -> Seq<int>
    decreases to - from,
{
    if to - from <= 1 {
        Seq::new(
            if to > from {
                1nat
            } else {
                0nat
            },
            |i: int| from + i,
        )
    } else {
        let mid = from + midpoint((to - from) as nat);
        merged_positions(s, sorted_positions(s, from, mid), sorted_positions(s, mid, to))
    }
}

/// Merging positions and then reading the elements is merging the
/// elements.
pub proof fn lemma_merged_positions_values(s: Seq<i32>, a: Seq<int>, b: Seq<int>)
    ensures
        values_at(s, merged_positions(s, a, b)) == merged(values_at(s, a), values_at(s, b)),
        merged_positions(s, a, b).len() == a.len() + b.len(),
    decreases a.len() + b.len(),
{
    if a.len() > 0 && (b.len() == 0 || s[a[0]] <= s[b[0]]) {
        lemma_merged_positions_values(s, a.skip(1), b);
        assert(values_at(s, a.skip(1)) =~= values_at(s, a).skip(1));
    } else if b.len() > 0 {
        lemma_merged_positions_values(s, a, b.skip(1));
        assert(values_at(s, b.skip(1)) =~= values_at(s, b).skip(1));
    }
}

/// A merge of positions holds only positions of its arguments: a range
/// that holds both holds the merge, and a position that goes before all of
/// both goes before all of the merge.
pub proof fn lemma_merged_positions_bounds(
    s: Seq<i32>,
    a: Seq<int>,
    b: Seq<int>,
    from: int,
    to: int,
    p: int,
)
    requires
        within(a, from, to),
        within(b, from, to),
    ensures
        within(merged_positions(s, a, b), from, to),
        goes_before_all(s, p, a) && goes_before_all(s, p, b) ==> goes_before_all(
            s,
            p,
            merged_positions(s, a, b),
        ),
    decreases a.len() + b.len(),
{
    if a.len() > 0 && (b.len() == 0 || s[a[0]] <= s[b[0]]) {
        assert(within(a.skip(1), from, to));
        assert(goes_before_all(s, p, a) ==> goes_before_all(s, p, a.skip(1)));
        lemma_merged_positions_bounds(s, a.skip(1), b, from, to, p);
    } else if b.len() > 0 {
        assert(within(b.skip(1), from, to));
        assert(goes_before_all(s, p, b) ==> goes_before_all(s, p, b.skip(1)));
        lemma_merged_positions_bounds(s, a, b.skip(1), from, to, p);
    }
}

/// Merging stably ordered positions of a left range with stably ordered
/// positions of a right range that follows it gives stably ordered
/// positions: between equal elements the left one stays first.
pub proof fn lemma_merged_positions_stable(
    s: Seq<i32>,
    a: Seq<int>,
    b: Seq<int>,
    from: int,
    mid: int,
    to: int,
)
    requires
        from <= mid <= to,
        within(a, from, mid),
        within(b, mid, to),
        stably_ordered(s, a),
        stably_ordered(s, b),
    ensures
        stably_ordered(s, merged_positions(s, a, b)),
    decreases a.len() + b.len(),
{
    if a.len() > 0 && (b.len() == 0 || s[a[0]] <= s[b[0]]) {
        let tail = a.skip(1);
        assert(within(tail, from, mid));
        assert(stably_ordered(s, tail));
        assert(goes_before_all(s, a[0], tail));
        assert forall|i: int| 0 <= i < b.len() implies goes_before(s, a[0], #[trigger] b[i]) by {
            if i > 0 {
                assert(goes_before(s, b[0], b[i]));
            }
        }
        lemma_merged_positions_stable(s, tail, b, from, mid, to);
        lemma_merged_positions_bounds(s, tail, b, from, to, a[0]);
    } else if b.len() > 0 {
        let tail = b.skip(1);
        assert(within(tail, mid, to));
        assert(stably_ordered(s, tail));
        assert(goes_before_all(s, b[0], tail));
        assert forall|i: int| 0 <= i < a.len() implies goes_before(s, b[0], #[trigger] a[i]) by {
            if i > 0 {
                assert(goes_before(s, a[0], a[i]));
            }
        }
        lemma_merged_positions_stable(s, a, tail, from, mid, to);
        lemma_merged_positions_bounds(s, a, tail, from, to, b[0]);
    }
}

/// The positions of a sorted range: as many as the range is long, all in
/// the range, stably ordered, and the elements at them are the merge sort
/// of the range.
pub proof fn lemma_sorted_positions(s: Seq<i32>, from: int, to: int)
    requires
        0 <= from <= to <= s.len(),
    ensures
        sorted_positions(s, from, to).len() == to - from,
        within(sorted_positions(s, from, to), from, to),
        stably_ordered(s, sorted_positions(s, from, to)),
        values_at(s, sorted_positions(s, from, to)) == merge_sorted(s.subrange(from, to)),
    decreases to - from,
{
    let range = s.subrange(from, to);
    if to - from > 1 {
        let k = midpoint(range.len());
        let mid = from + k;
        let a = sorted_positions(s, from, mid);
        let b = sorted_positions(s, mid, to);
        lemma_sorted_positions(s, from, mid);
        lemma_sorted_positions(s, mid, to);
        assert(range.subrange(0, k) =~= s.subrange(from, mid));
        assert(range.subrange(k, range.len() as int) =~= s.subrange(mid, to));
        lemma_merged_positions_values(s, a, b);
        lemma_merged_positions_bounds(s, a, b, from, to, 0);
        lemma_merged_positions_stable(s, a, b, from, mid, to);
    }
}

/// The sort is stable. For every sequence `s` there are positions `ps`,
/// one for each place of the merge sort of `s`, such that the element at a
/// place is the element of `s` at its position, no position of `s` is used
/// twice, and of two equal elements the one that stood earlier in `s`
/// stands earlier in the merge sort.
pub proof fn lemma_merge_sorted_stable(s: Seq<i32>) -> (ps: Seq<int>)
    ensures
        ps == sorted_positions(s, 0, s.len() as int),
        ps.len() == s.len(),
        merge_sorted(s).len() == s.len(),
        forall|i: int| 0 <= i < ps.len() ==> 0 <= #[trigger] ps[i] < s.len(),
        forall|i: int| 0 <= i < ps.len() ==> #[trigger] merge_sorted(s)[i] == s[ps[i]],
        forall|i: int, j: int| 0 <= i < j < ps.len() ==> ps[i] != ps[j],
        forall|i: int, j: int|
            0 <= i < j < ps.len() && merge_sorted(s)[i] == merge_sorted(s)[j] ==> ps[i] < ps[j],
{
    let ps = sorted_positions(s, 0, s.len() as int);
    lemma_sorted_positions(s, 0, s.len() as int);
    assert(s.subrange(0, s.len() as int) =~= s);
    assert forall|i: int| 0 <= i < ps.len() implies #[trigger] merge_sorted(s)[i] == s[ps[i]] by {
        assert(values_at(s, ps)[i] == s[ps[i]]);
    }
    assert forall|i: int, j: int| 0 <= i < j < ps.len() implies ps[i] != ps[j] && (merge_sorted(
        s,
    )[i] == merge_sorted(s)[j] ==> ps[i] < ps[j]) by {
        assert(goes_before(s, ps[i], ps[j]));
    }
    ps
}

} // verus!
