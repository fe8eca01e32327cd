use merge_sort::{merge, merge_copy, merge_split, sort};

fn count(l: &Vec<i32>, x: i32) -> usize {
    let mut n = 0;
    for v in l {
        if *v == x {
            n += 1;
        }
    }
    n
}

#[test]
fn sort_twice_is_sort_once() {
    let mut once = vec![5, -1, 5, 0, 3, 3, -7, 12, 0];
    sort(&mut once);
    let mut twice = once.clone();
    sort(&mut twice);

    assert_eq!(once, vec![-7, -1, 0, 0, 3, 3, 5, 5, 12]);
    assert_eq!(twice, once);
}

#[test]
fn sort_keeps_every_element() {
    let input = vec![4, 4, -2, 9, 4, -2, 0, 1];
    let mut l = input.clone();
    sort(&mut l);

    assert_eq!(l.len(), input.len());
    for x in [-2, 0, 1, 4, 9, 7] {
        assert_eq!(count(&l, x), count(&input, x));
    }
}

#[test]
fn sort_orders_adjacent_pairs() {
    let mut l = vec![10, 9, 8, 8, 7, -1, 6, 5, 4, 3, 2, 1, 0];
    sort(&mut l);

    for i in 1..l.len() {
        assert!(l[i - 1] <= l[i]);
    }
    assert_eq!(l, vec![-1, 0, 1, 2, 3, 4, 5, 6, 7, 8, 8, 9, 10]);
}

#[test]
fn sort_single_element() {
    let mut l = vec![7];
    sort(&mut l);

    assert_eq!(l, vec![7]);
}

#[test]
fn sort_two_elements() {
    let mut l = vec![2, 1];
    sort(&mut l);

    assert_eq!(l, vec![1, 2]);
}

#[test]
fn sort_sorted_input_unchanged() {
    let mut l = vec![-5, -5, 0, 1, 2, 2, 8];
    sort(&mut l);

    assert_eq!(l, vec![-5, -5, 0, 1, 2, 2, 8]);
}

#[test]
fn sort_extreme_values() {
    let mut l = vec![i32::MAX, 0, i32::MIN, -1, i32::MAX, i32::MIN];
    sort(&mut l);

    assert_eq!(l, vec![i32::MIN, i32::MIN, -1, 0, i32::MAX, i32::MAX]);
}

#[test]
fn merge_of_unordered_parts_follows_the_heads() {
    let l1 = vec![2, 1, 1, 3];
    let mut l2 = vec![0; 4];

    merge(&l1, 0, 2, 4, &mut l2);

    assert_eq!(l2, vec![1, 2, 1, 3]);
}

#[test]
fn merge_leaves_the_rest_of_scratch() {
    let l1 = vec![9, 4, 6, 5, 7, 9];
    let mut l2 = vec![-1; 7];

    merge(&l1, 1, 3, 5, &mut l2);

    assert_eq!(l2, vec![-1, 4, 5, 6, 7, -1, -1]);
}

#[test]
fn merge_with_one_empty_part() {
    let l1 = vec![1, 2, 3];
    let mut left_only = vec![0; 3];
    let mut right_only = vec![0; 3];

    merge(&l1, 0, 3, 3, &mut left_only);
    merge(&l1, 0, 0, 3, &mut right_only);

    assert_eq!(left_only, vec![1, 2, 3]);
    assert_eq!(right_only, vec![1, 2, 3]);
}

#[test]
fn merge_copy_into_longer_primary() {
    let mut l1 = vec![7; 6];
    let l2 = vec![1, 2, 3, 4];

    merge_copy(&mut l1, 2, 4, &l2);

    assert_eq!(l1, vec![7, 7, 3, 4, 7, 7]);
}

#[test]
fn merge_split_single_element_range_changes_nothing() {
    let mut l1 = vec![3, 2, 1];
    let mut l2 = vec![8, 8, 8];

    merge_split(&mut l1, 1, 2, &mut l2);

    assert_eq!(l1, vec![3, 2, 1]);
    assert_eq!(l2, vec![8, 8, 8]);
}

#[test]
fn merge_split_range_leaves_the_rest() {
    let mut l1 = vec![9, 5, 4, 3, 2, 0];
    let mut l2 = vec![-1; 6];

    merge_split(&mut l1, 1, 5, &mut l2);

    assert_eq!(l1, vec![9, 2, 3, 4, 5, 0]);
    assert_eq!(l2, vec![-1, 2, 3, 4, 5, -1]);
}
