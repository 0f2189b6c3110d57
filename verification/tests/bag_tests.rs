use algos::bag::{Bag, LinkedBag};

#[test]
fn test_linked_bag() {
    let mut b = LinkedBag::new();
    assert_eq!(b.size(), 0);
    assert_eq!(b.is_empty(), true);

    b.add(10);
    assert_eq!(b.size(), 1);
    assert_eq!(b.is_empty(), false);

    b.add(20);
    assert_eq!(b.size(), 2);
    assert_eq!(b.is_empty(), false);
}

#[test]
fn test_linked_bag_iter() {
    let mut b = LinkedBag::new();
    b.add(10);
    b.add(20);
    b.add(30);
    b.add(40);
    b.add(50);

    assert_eq!(5, b.size());

    let mut it = b.iter();
    let mut i: i32 = 0;
    while let Some(v) = it.next() {
        assert_eq!(*v, 10 * (i + 1));
        i += 1;
    }
}

#[test]
fn test_linked_bag_duplicates() {
    // a bag keeps duplicates as separate insertion events
    let mut b = LinkedBag::new();
    b.add(7);
    b.add(7);
    b.add(7);
    assert_eq!(b.size(), 3);

    let mut it = b.iter();
    let mut count: usize = 0;
    while let Some(v) = it.next() {
        assert_eq!(*v, 7);
        count += 1;
    }
    assert_eq!(count, 3);
}
