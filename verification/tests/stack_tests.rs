use algos::stack::{LinkedStack, Stack};

#[test]
fn test_linked_stack() {
    let mut stack = LinkedStack::new();
    assert_eq!(stack.size(), 0);
    assert_eq!(stack.is_empty(), true);

    stack.push(10);
    assert_eq!(stack.size(), 1);
    assert_eq!(stack.is_empty(), false);

    stack.push(20);
    assert_eq!(stack.size(), 2);
    assert_eq!(stack.is_empty(), false);

    stack.push(30);
    assert_eq!(stack.size(), 3);
    assert_eq!(stack.is_empty(), false);

    stack.push(40);
    assert_eq!(stack.size(), 4);
    assert_eq!(stack.is_empty(), false);

    stack.push(50);
    assert_eq!(stack.size(), 5);
    assert_eq!(stack.is_empty(), false);

    assert_eq!(stack.pop(), Some(50));
    assert_eq!(stack.size(), 4);
    assert_eq!(stack.is_empty(), false);

    assert_eq!(stack.pop(), Some(40));
    assert_eq!(stack.size(), 3);
    assert_eq!(stack.is_empty(), false);

    assert_eq!(stack.pop(), Some(30));
    assert_eq!(stack.size(), 2);
    assert_eq!(stack.is_empty(), false);

    assert_eq!(stack.pop(), Some(20));
    assert_eq!(stack.size(), 1);
    assert_eq!(stack.is_empty(), false);

    assert_eq!(stack.pop(), Some(10));
    assert_eq!(stack.size(), 0);
    assert_eq!(stack.is_empty(), true);

    assert_eq!(stack.pop(), None);
    assert_eq!(stack.size(), 0);
    assert_eq!(stack.is_empty(), true);
}

#[test]
fn test_linked_stack_iter() {
    let mut stack = LinkedStack::new();
    let mut count: usize = 0;
    let mut it = stack.iter();
    while it.next().is_some() {
        count += 1;
    }
    assert_eq!(count, 0);

    stack.push(10);
    stack.push(20);
    stack.push(30);
    stack.push(40);
    stack.push(50);

    let mut count: usize = 0;
    let mut it = stack.iter();
    while it.next().is_some() {
        count += 1;
    }
    assert_eq!(count, 5);

    let mut it = stack.iter();
    let mut i: i32 = 0;
    while let Some(v) = it.next() {
        assert_eq!(*v, 10 * (5 - i));
        i += 1;
    }
}
