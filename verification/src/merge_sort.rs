//! The executable merge sort: a splitter, a merger and a copier over a
//! primary buffer and a scratch buffer, and the entry point `sort`.

use vstd::prelude::*;
use crate::model::{merge_sorted, merged, midpoint, sorted};
use crate::laws::{lemma_merged_multiset, lemma_merged_sorted};

verus! {

/// Copies the elements at the positions `s..e` of the scratch buffer `l2`
/// to the same positions of the primary buffer `l1`. Every other position
/// of `l1` keeps its element.
pub fn merge_copy(l1: &mut Vec<i32>, s: usize, e: usize, l2: &Vec<i32>)
    requires
        s <= e,
        e <= old(l1)@.len(),
        e <= l2@.len(),
    ensures
        final(l1)@.len() == old(l1)@.len(),
        forall|i: int| s <= i < e ==> final(l1)@[i] == l2@[i],
        forall|i: int| 0 <= i < s || e <= i < old(l1)@.len() ==> final(l1)@[i] == old(l1)@[i],
{
    let mut i: usize = s;
    while i < e
        invariant
            s <= i <= e,
            e <= l2@.len(),
            e <= l1@.len(),
            l1@.len() == old(l1)@.len(),
            forall|k: int| s <= k < i ==> l1@[k] == l2@[k],
            forall|k: int| 0 <= k < s || i <= k < l1@.len() ==> l1@[k] == old(l1)@[k],
        decreases e - i,
    {
        l1[i] = l2[i];
        i += 1;
    }
}

/// Merges the two adjacent parts `s..m` and `m..e` of the primary buffer
/// `l1` into the positions `s..e` of the scratch buffer `l2`. What is
/// written is the stable merge of the two parts: between equal elements the
/// one of the left part comes first. Where both parts are ordered, so is
/// what is written. Every other position of `l2` keeps its element.
pub fn merge(l1: &Vec<i32>, s: usize, m: usize, e: usize, l2: &mut Vec<i32>)
    requires
        s <= m <= e,
        e <= l1@.len(),
        e <= old(l2)@.len(),
    ensures
        final(l2)@.len() == old(l2)@.len(),
        final(l2)@.subrange(s as int, e as int) == merged(
            l1@.subrange(s as int, m as int),
            l1@.subrange(m as int, e as int),
        ),
        forall|i: int| 0 <= i < s || e <= i < old(l2)@.len() ==> final(l2)@[i] == old(l2)@[i],
        final(l2)@.subrange(s as int, e as int).to_multiset() == l1@.subrange(
            s as int,
            e as int,
        ).to_multiset(),
        sorted(l1@.subrange(s as int, m as int)) && sorted(l1@.subrange(m as int, e as int))
            ==> sorted(final(l2)@.subrange(s as int, e as int)),
{
    let mut ptr1: usize = s;
    let mut ptr2: usize = m;
    let ghost left = l1@.subrange(s as int, m as int);
    let ghost right = l1@.subrange(m as int, e as int);

    let mut i: usize = s;
    while i < e
        invariant
            s <= ptr1 <= m <= ptr2 <= e,
            s <= i <= e,
            i - s == (ptr1 - s) + (ptr2 - m),
            e <= l1@.len(),
            e <= l2@.len(),
            l2@.len() == old(l2)@.len(),
            left == l1@.subrange(s as int, m as int),
            right == l1@.subrange(m as int, e as int),
            l2@.subrange(s as int, i as int) + merged(
                l1@.subrange(ptr1 as int, m as int),
                l1@.subrange(ptr2 as int, e as int),
            ) == merged(left, right),
            forall|k: int| 0 <= k < s || e <= k < l2@.len() ==> l2@[k] == old(l2)@[k],
        decreases e - i,
    {
        let ghost rest1 = l1@.subrange(ptr1 as int, m as int);
        let ghost rest2 = l1@.subrange(ptr2 as int, e as int);
        if (ptr1 < m) && (ptr2 >= e || l1[ptr1] <= l1[ptr2]) {
            l2[i] = l1[ptr1];
            ptr1 += 1;
            proof {
                assert(rest1.skip(1) =~= l1@.subrange(ptr1 as int, m as int));
            }
        } else {
            l2[i] = l1[ptr2];
            ptr2 += 1;
            proof {
                assert(rest2.skip(1) =~= l1@.subrange(ptr2 as int, e as int));
            }
        }
        i += 1;
    }
    proof {
        lemma_merged_multiset(left, right);
        vstd::seq_lib::lemma_multiset_commutative(left, right);
        assert(left + right =~= l1@.subrange(s as int, e as int));
        if sorted(left) && sorted(right) {
            lemma_merged_sorted(left, right);
        }
    }
}

/// Sorts the positions `s..e` of the primary buffer `l1` by merge sort,
/// with `l2` as scratch buffer. A range of at most one element is left as
/// it is, and so is `l2`. A longer range is cut at `s + (e - s) / 2`; the
/// left part is sorted, then the right part, the two are merged into `l2`,
/// and the result is copied back, so that both buffers then hold the sorted
/// range at `s..e`. Outside `s..e` both buffers keep their elements.
pub fn merge_split(l1: &mut Vec<i32>, s: usize, e: usize, l2: &mut Vec<i32>)
    requires
        s <= e,
        e <= old(l1)@.len(),
        e <= old(l2)@.len(),
    ensures
        final(l1)@.len() == old(l1)@.len(),
        final(l2)@.len() == old(l2)@.len(),
        final(l1)@.subrange(s as int, e as int) == merge_sorted(
            old(l1)@.subrange(s as int, e as int),
        ),
        forall|i: int| 0 <= i < s || e <= i < old(l1)@.len() ==> final(l1)@[i] == old(l1)@[i],
        forall|i: int| 0 <= i < s || e <= i < old(l2)@.len() ==> final(l2)@[i] == old(l2)@[i],
        e - s > 1 ==> final(l2)@.subrange(s as int, e as int) == final(l1)@.subrange(
            s as int,
            e as int,
        ),
        e - s <= 1 ==> final(l2)@ == old(l2)@,
        sorted(final(l1)@.subrange(s as int, e as int)),
        final(l1)@.subrange(s as int, e as int).to_multiset() == old(l1)@.subrange(
            s as int,
            e as int,
        ).to_multiset(),
    decreases e - s,
{
    let ghost range = l1@.subrange(s as int, e as int);
    if e - s > 1 {
        let m: usize = s + (e - s) / 2;

        merge_split(l1, s, m, l2);
        let ghost after_left = l1@;
        merge_split(l1, m, e, l2);
        let ghost after_right = l1@;
        merge(l1, s, m, e, l2);
        merge_copy(l1, s, e, l2);

        proof {
            let k = midpoint(range.len());
            assert(range.subrange(0, k) =~= old(l1)@.subrange(s as int, m as int));
            assert(range.subrange(k, range.len() as int) =~= old(l1)@.subrange(
                m as int,
                e as int,
            ));
            assert(after_left.subrange(m as int, e as int) =~= old(l1)@.subrange(
                m as int,
                e as int,
            ));
            assert(after_right.subrange(s as int, m as int) =~= after_left.subrange(
                s as int,
                m as int,
            ));
            assert(after_right.subrange(s as int, e as int) =~= after_right.subrange(
                s as int,
                m as int,
            ) + after_right.subrange(m as int, e as int));
            assert(range =~= range.subrange(0, k) + range.subrange(k, range.len() as int));
            vstd::seq_lib::lemma_multiset_commutative(
                after_right.subrange(s as int, m as int),
                after_right.subrange(m as int, e as int),
            );
            vstd::seq_lib::lemma_multiset_commutative(
                range.subrange(0, k),
                range.subrange(k, range.len() as int),
            );
        }
    }
}

/// Sorts `l` in place by merge sort: afterwards `l` holds the merge sort of
/// what it held, which is in non-decreasing order and has the same
/// elements, each as often as before.
pub fn sort(l: &mut Vec<i32>)
    ensures
        final(l)@ == merge_sorted(old(l)@),
        sorted(final(l)@),
        final(l)@.to_multiset() == old(l)@.to_multiset(),
        final(l)@.len() == old(l)@.len(),
        old(l)@.len() <= 1 ==> final(l)@ == old(l)@,
{
    let size: usize = l.len();
    let mut worker: Vec<i32> = vec![0; size];

    merge_split(l, 0, size, &mut worker);

    proof {
        assert(l@.subrange(0, size as int) =~= l@);
        assert(old(l)@.subrange(0, size as int) =~= old(l)@);
    }
}

} // verus!
