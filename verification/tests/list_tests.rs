use algos::linked_list::LinkedList;
use algos::list::List;

#[test]
fn test_basic() {
    let mut list = LinkedList::new();
    assert_eq!(list.size(), 0);
    assert_eq!(list.is_empty(), true);
    assert_eq!(list.non_empty(), false);
    assert_eq!(list.pop_front(), None);
    assert_eq!(list.pop_back(), None);

    // 40 20 10 30 50
    list.push_back(10);
    assert_eq!(list.size(), 1);
    list.push_front(20);
    assert_eq!(list.size(), 2);
    list.push_back(30);
    assert_eq!(list.size(), 3);
    list.push_front(40);
    assert_eq!(list.size(), 4);
    list.push_back(50);
    assert_eq!(list.size(), 5);
    assert_eq!(list.is_empty(), false);
    assert_eq!(list.non_empty(), true);

    assert_eq!(list.pop_front(), Some(40));
    assert_eq!(list.size(), 4);
    assert_eq!(list.pop_back(), Some(50));
    assert_eq!(list.size(), 3);
    assert_eq!(list.pop_front(), Some(20));
    assert_eq!(list.size(), 2);
    assert_eq!(list.pop_back(), Some(30));
    assert_eq!(list.size(), 1);
    assert_eq!(list.pop_front(), Some(10));
    assert_eq!(list.size(), 0);
    assert_eq!(list.is_empty(), true);
    assert_eq!(list.non_empty(), false);
    assert_eq!(list.pop_front(), None);
    assert_eq!(list.pop_back(), None);
}

#[test]
fn test_iter() {
    let mut list = LinkedList::new();
    list.push_back(10);
    list.push_back(20);
    list.push_back(30);
    list.push_back(40);
    list.push_back(50);

    let mut it = list.iter();
    let mut i: i32 = 0;
    while let Some(v) = it.next() {
        i += 1;
        assert_eq!(*v, 10 * i);
    }

    let mut count: usize = 0;
    let mut it = list.iter();
    while it.next().is_some() {
        count += 1;
    }
    assert_eq!(5, count);
}

#[test]
fn test_iter_mut() {
    let mut list = LinkedList::new();
    list.push_back(10);
    list.push_back(20);
    list.push_back(30);
    list.push_back(40);
    list.push_back(50);

    let mut it = list.iter_mut();
    let mut i: i32 = 0;
    while let Some(v) = it.next() {
        assert_eq!(*v, 10 * (i + 1));
        i += 1;
    }

    let mut count: usize = 0;
    let mut it = list.iter();
    while it.next().is_some() {
        count += 1;
    }
    assert_eq!(5, count);

    let mut it = list.iter_mut();
    while let Some(v) = it.next() {
        *v += 5;
    }

    let mut it = list.iter_mut();
    let mut i: i32 = 0;
    while let Some(v) = it.next() {
        assert_eq!(*v, 10 * (i + 1) + 5);
        i += 1;
    }
}

#[test]
fn test_clear_idempotent() {
    let mut list: LinkedList<i32> = LinkedList::new();
    list.clear();
    assert_eq!(list.size(), 0);
    assert_eq!(list.is_empty(), true);

    list.push_back(1);
    list.push_front(2);
    list.clear();
    assert_eq!(list.size(), 0);
    assert_eq!(list.pop_front(), None);

    list.clear();
    assert_eq!(list.size(), 0);
}

#[test]
fn test_symmetry_across_ends() {
    let mut list = LinkedList::new();
    list.push_front(7);
    assert_eq!(list.pop_back(), Some(7));
    assert_eq!(list.size(), 0);

    list.push_back(9);
    assert_eq!(list.pop_front(), Some(9));
    assert_eq!(list.size(), 0);
    assert_eq!(list.pop_back(), None);
}

#[test]
fn test_mixed_scenario() {
    // front-to-back order should become 40 20 10 30 50
    let mut list = LinkedList::new();
    list.push_back(10);
    list.push_front(20);
    list.push_back(30);
    list.push_front(40);
    list.push_back(50);

    let mut it = list.iter();
    let expected = [40, 20, 10, 30, 50];
    let mut i: usize = 0;
    while let Some(v) = it.next() {
        assert_eq!(*v, expected[i]);
        i += 1;
    }
    assert_eq!(i, 5);

    assert_eq!(list.pop_front(), Some(40));
    assert_eq!(list.pop_back(), Some(50));
    assert_eq!(list.pop_front(), Some(20));
    assert_eq!(list.pop_back(), Some(30));
    assert_eq!(list.pop_front(), Some(10));
    assert_eq!(list.pop_front(), None);
    assert_eq!(list.pop_back(), None);
}

#[test]
fn test_size_accounting() {
    // size equals pushes minus successful pops, never below zero
    let mut list: LinkedList<i32> = LinkedList::new();
    assert_eq!(list.pop_back(), None);
    assert_eq!(list.size(), 0);
    list.push_back(1);
    list.push_front(2);
    list.push_back(3);
    assert_eq!(list.size(), 3);
    assert!(list.pop_back().is_some());
    assert!(list.pop_front().is_some());
    assert_eq!(list.size(), 1);
    assert!(list.pop_front().is_some());
    assert_eq!(list.pop_front(), None);
    assert_eq!(list.size(), 0);
}

#[test]
fn test_round_trip_both_ends() {
    let mut list = LinkedList::new();
    let n: i32 = 6;
    for k in 0..n {
        list.push_back(k);
    }
    for k in 0..n {
        assert_eq!(list.pop_front(), Some(k));
    }
    assert_eq!(list.size(), 0);
    assert_eq!(list.is_empty(), true);
    assert_eq!(list.pop_front(), None);

    for k in 0..n {
        list.push_back(k);
    }
    for k in 0..n {
        assert_eq!(list.pop_back(), Some(n - 1 - k));
    }
    assert_eq!(list.size(), 0);
    assert_eq!(list.pop_back(), None);
}

#[test]
fn test_lifo_push_front() {
    let mut list = LinkedList::new();
    for k in 1..=4 {
        list.push_front(k);
    }
    for k in 0..4 {
        assert_eq!(list.pop_front(), Some(4 - k));
    }
    assert_eq!(list.pop_front(), None);
}
