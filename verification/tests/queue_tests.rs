use algos::queue::{LinkedQueue, Queue};

#[test]
fn test_linked_queue() {
    let mut queue = LinkedQueue::new();
    assert_eq!(queue.size(), 0);
    assert_eq!(queue.is_empty(), true);

    queue.enqueue(10);
    assert_eq!(queue.size(), 1);
    assert_eq!(queue.is_empty(), false);

    queue.enqueue(20);
    assert_eq!(queue.size(), 2);
    assert_eq!(queue.is_empty(), false);

    queue.enqueue(30);
    assert_eq!(queue.size(), 3);
    assert_eq!(queue.is_empty(), false);

    queue.enqueue(40);
    assert_eq!(queue.size(), 4);
    assert_eq!(queue.is_empty(), false);

    queue.enqueue(50);
    assert_eq!(queue.size(), 5);
    assert_eq!(queue.is_empty(), false);

    assert_eq!(queue.dequeue(), Some(10));
    assert_eq!(queue.size(), 4);
    assert_eq!(queue.is_empty(), false);

    assert_eq!(queue.dequeue(), Some(20));
    assert_eq!(queue.size(), 3);
    assert_eq!(queue.is_empty(), false);

    assert_eq!(queue.dequeue(), Some(30));
    assert_eq!(queue.size(), 2);
    assert_eq!(queue.is_empty(), false);

    assert_eq!(queue.dequeue(), Some(40));
    assert_eq!(queue.size(), 1);
    assert_eq!(queue.is_empty(), false);

    assert_eq!(queue.dequeue(), Some(50));
    assert_eq!(queue.size(), 0);
    assert_eq!(queue.is_empty(), true);

    assert_eq!(queue.dequeue(), None);
    assert_eq!(queue.size(), 0);
    assert_eq!(queue.is_empty(), true);
}

#[test]
fn test_linked_queue_iter() {
    let mut queue = LinkedQueue::new();
    queue.enqueue(10);
    queue.enqueue(20);
    queue.enqueue(30);
    queue.enqueue(40);
    queue.enqueue(50);

    let mut count: usize = 0;
    let mut it = queue.iter();
    while it.next().is_some() {
        count += 1;
    }
    assert_eq!(count, 5);

    let mut it = queue.iter();
    let mut i: i32 = 0;
    while let Some(v) = it.next() {
        assert_eq!(*v, 10 * (i + 1));
        i += 1;
    }
}
