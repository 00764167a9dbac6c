use cs110l::warmup::{add_n, add_n_inplace, dedup};

#[test]
fn test_add_n() {
    assert_eq!(add_n(vec![1], 2), vec![3]);
}

#[test]
fn test_add_n_inplace() {
    let mut v = vec![1];
    add_n_inplace(&mut v, 2);
    assert_eq!(v, vec![3]);
}

#[test]
fn test_dedup() {
    let mut v = vec![3, 1, 0, 1, 4, 4];
    dedup(&mut v);
    assert_eq!(v, vec![3, 1, 0, 4]);
}

#[test]
fn add_n_of_nothing_is_nothing() {
    assert_eq!(add_n(Vec::new(), 7), Vec::<i32>::new());
}

#[test]
fn add_n_keeps_order_and_length() {
    assert_eq!(add_n(vec![-5, 0, 5, 10], -3), vec![-8, -3, 2, 7]);
}

#[test]
fn add_n_reaches_the_bounds() {
    assert_eq!(add_n(vec![i32::MAX - 1, i32::MIN], 1), vec![i32::MAX, i32::MIN + 1]);
}

#[test]
fn add_n_inplace_changes_every_element() {
    let mut v = vec![10, 20, 30];
    add_n_inplace(&mut v, -10);
    assert_eq!(v, vec![0, 10, 20]);
}

#[test]
fn add_n_inplace_on_empty() {
    let mut v: Vec<i32> = Vec::new();
    add_n_inplace(&mut v, 1);
    assert!(v.is_empty());
}

#[test]
fn dedup_of_distinct_changes_nothing() {
    let mut v = vec![5, 4, 3, 2, 1];
    dedup(&mut v);
    assert_eq!(v, vec![5, 4, 3, 2, 1]);
}

#[test]
fn dedup_of_all_equal_keeps_one() {
    let mut v = vec![7, 7, 7, 7];
    dedup(&mut v);
    assert_eq!(v, vec![7]);
}

#[test]
fn dedup_of_empty() {
    let mut v: Vec<i32> = Vec::new();
    dedup(&mut v);
    assert!(v.is_empty());
}

#[test]
fn dedup_twice_is_dedup_once() {
    let mut v = vec![2, 1, 2, 3, 1, -1, 3];
    dedup(&mut v);
    let once = v.clone();
    dedup(&mut v);
    assert_eq!(v, once);
    assert_eq!(once, vec![2, 1, 3, -1]);
}
