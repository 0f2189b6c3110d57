use algos::sort::{bubble_sort, insertion_sort, quick_sort, selection_sort, smallest_n};

#[test]
fn test_bubble_sort() {
    let mut v = vec![4, 3, 5, 1, 2];
    bubble_sort(&mut v);
    assert_eq!(v, vec![1, 2, 3, 4, 5]);

    let mut v = vec![5, 4, 3, 2, 1];
    bubble_sort(&mut v);
    assert_eq!(v, vec![1, 2, 3, 4, 5]);
}

#[test]
fn test_insertion_sort() {
    let mut v = vec![4, 3, 5, 1, 2];
    insertion_sort(&mut v);
    assert_eq!(v, vec![1, 2, 3, 4, 5]);

    let mut v = vec![5, 4, 3, 2, 1];
    insertion_sort(&mut v);
    assert_eq!(v, vec![1, 2, 3, 4, 5]);
}

#[test]
fn test_selection_sort() {
    let mut v = vec![4, 3, 5, 1, 2];
    selection_sort(&mut v);
    assert_eq!(v, vec![1, 2, 3, 4, 5]);

    let mut v = vec![5, 4, 3, 2, 1];
    selection_sort(&mut v);
    assert_eq!(v, vec![1, 2, 3, 4, 5]);
}

#[test]
fn test_quick_sort() {
    let mut v = vec![4, 3, 5, 1, 2];
    quick_sort(&mut v);
    assert_eq!(v, vec![1, 2, 3, 4, 5]);

    let mut v = vec![5, 4, 3, 2, 1];
    quick_sort(&mut v);
    assert_eq!(v, vec![1, 2, 3, 4, 5]);
}

#[test]
fn test_smallest_n() {
    let mut v = vec![4, 3, 5, 1, 2];
    assert_eq!(smallest_n(&mut v, 0), None);
    assert_eq!(smallest_n(&mut v, 1), Some(1));
    assert_eq!(smallest_n(&mut v, 2), Some(2));
    assert_eq!(smallest_n(&mut v, 3), Some(3));
    assert_eq!(smallest_n(&mut v, 4), Some(4));
    assert_eq!(smallest_n(&mut v, 5), Some(5));
    assert_eq!(smallest_n(&mut v, 6), None);
}

#[test]
fn test_sorts_with_duplicates_and_edges() {
    let mut v: Vec<i32> = vec![];
    bubble_sort(&mut v);
    assert_eq!(v, Vec::<i32>::new());

    let mut v = vec![7];
    insertion_sort(&mut v);
    assert_eq!(v, vec![7]);

    let mut v = vec![2, 1, 2, 1, 2];
    quick_sort(&mut v);
    assert_eq!(v, vec![1, 1, 2, 2, 2]);

    let mut v = vec![3, 3, 3];
    selection_sort(&mut v);
    assert_eq!(v, vec![3, 3, 3]);

    let mut v = vec![2, 2, 1];
    assert_eq!(smallest_n(&mut v, 2), Some(2));
}
