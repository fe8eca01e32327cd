use merge_sort::{merge, merge_copy, merge_split, sort};

#[test]
fn merge_basic() {
    let l1 = vec![1, 3, 5, 2, 4, 6];
    let mut l2 = vec![0; 6];

    merge(&l1, 0, 3, 6, &mut l2);

    assert_eq!(l2, vec![1, 2, 3, 4, 5, 6]);
}

#[test]
fn merge_duplicates() {
    let l1 = vec![1, 1, 2, 1, 2, 2];
    let mut l2 = vec![0; 6];

    merge(&l1, 0, 3, 6, &mut l2);

    assert_eq!(l2, vec![1, 1, 1, 2, 2, 2]);
}

#[test]
fn merge_empty() {
    let l1 = vec![];
    let mut l2 = vec![];

    merge(&l1, 0, 0, 0, &mut l2);

    assert!(l2.is_empty());
}

#[test]
#[should_panic]
fn merge_out_of_bound() {
    let l1 = vec![];
    let mut l2 = vec![];

    merge(&l1, 0, 1, 2, &mut l2);
}

#[test]
#[should_panic]
fn merge_smaller_output() {
    let l1 = vec![1, 2, 3];
    let mut l2 = vec![1];

    merge(&l1, 0, 1, 2, &mut l2);
}

#[test]
fn merge_copy_basic() {
    let mut l1 = vec![0; 5];
    let l2 = vec![1, 2, 3, 4, 5];

    merge_copy(&mut l1, 0, l2.len(), &l2);

    assert_eq!(l1, l2);
}

#[test]
fn merge_copy_selection() {
    let mut l1 = vec![0; 5];
    let l2 = vec![1, 2, 3, 4, 5];

    merge_copy(&mut l1, 1, 4, &l2);

    assert_eq!(l1, vec![0, 2, 3, 4, 0]);
}

#[test]
fn merge_copy_nothing() {
    let mut l1 = vec![0; 3];
    let l2 = vec![1, 2, 3];

    merge_copy(&mut l1, 0, 0, &l2);

    assert_eq!(l1, vec![0, 0, 0]);
}

#[test]
#[should_panic]
fn merge_copy_out_of_bound() {
    let mut l1 = vec![0; 5];
    let l2 = vec![1, 2, 3, 4, 5];

    merge_copy(&mut l1, 0, 10, &l2);
}

#[test]
fn merge_split_basic() {
    let mut l1 = vec![4, 3, 1, 5, 2];
    let mut l2 = vec![0; 5];

    merge_split(&mut l1, 0, 5, &mut l2);

    assert_eq!(l1, l2);
    assert_eq!(l2, vec![1, 2, 3, 4, 5]);
}

#[test]
fn merge_split_duplicates() {
    let mut l1 = vec![2, 1, 3, 3, 2, 3];
    let mut l2 = vec![0; 6];

    merge_split(&mut l1, 0, 6, &mut l2);

    assert_eq!(l1, l2);
    assert_eq!(l2, vec![1, 2, 2, 3, 3, 3]);
}

#[test]
fn merge_split_selection() {
    let mut l1 = vec![4, 3, 1, 5, 2];
    let mut l2 = vec![0; 5];

    merge_split(&mut l1, 1, 4, &mut l2);

    assert_eq!(l1[1..4], l2[1..4]);
    assert_eq!(l2, vec![0, 1, 3, 5, 0]);
}

#[test]
fn merge_split_empty() {
    let mut l1 = vec![];
    let mut l2 = vec![];

    merge_split(&mut l1, 0, 0, &mut l2);

    assert_eq!(l1, l2);
    assert!(l2.is_empty());
}

#[test]
#[should_panic]
fn merge_split_out_of_bound() {
    let mut l1 = vec![1, 2, 3];
    let mut l2 = vec![0; 3];

    merge_split(&mut l1, 0, 5, &mut l2);
}

#[test]
#[should_panic]
fn merge_split_smaller_out() {
    let mut l1 = vec![1, 2, 3];
    let mut l2 = vec![];

    merge_split(&mut l1, 0, 3, &mut l2);

    assert_eq!(l1, l2);
}

#[test]
fn sort_basic() {
    let mut l = vec![3, 1, 5, 4, 2];

    sort(&mut l);

    assert_eq!(l, vec![1, 2, 3, 4, 5]);
}

#[test]
fn sort_duplicates() {
    let mut l = vec![3, 1, 2, 3, 2, 3];

    sort(&mut l);

    assert_eq!(l, vec![1, 2, 2, 3, 3, 3]);
}

#[test]
fn sort_emtpy() {
    let mut l = vec![];

    sort(&mut l);

    assert!(l.is_empty());
}

#[test]
fn sort_negative() {
    let mut l = vec![3, -3, 1, 0, -2, -1, 2];

    sort(&mut l);

    assert_eq!(l, vec![-3, -2, -1, 0, 1, 2, 3]);
}
