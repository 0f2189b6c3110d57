//! A first-in-first-out queue built on the list contract alone.

use vstd::prelude::*;

use crate::linked_list::{Iter, LinkedList};
use crate::list::List;

verus! {

/// A queue: enqueue at the back, dequeue at the front, so the oldest
/// element leaves first.
pub trait Queue<T>: Sized {
    /// The abstract content, front (oldest) first.
    spec fn elems(&self) -> Seq<T>;

    /// The implementor's internal invariant.
    spec fn inv(&self) -> bool;

    /// Places `item` at the back.
    fn enqueue(&mut self, item: T)
        requires
            old(self).inv(),
            old(self).elems().len() < usize::MAX,
        ensures
            final(self).inv(),
            final(self).elems() == old(self).elems().push(item),
    ;

    /// Removes and returns the front element; absent when empty.
    fn dequeue(&mut self) -> (r: Option<T>)
        requires
            old(self).inv(),
        ensures
            final(self).inv(),
            old(self).elems().len() == 0 ==> r is None && final(self).elems() == old(self).elems(),
            old(self).elems().len() != 0 ==> r == Some(old(self).elems().first())
                && final(self).elems() == old(self).elems().drop_first(),
    ;

    /// Number of elements held.
    fn size(&self) -> (n: usize)
        requires
            self.inv(),
        ensures
            n == self.elems().len(),
    ;

    /// True exactly when no element is held.
    fn is_empty(&self) -> (b: bool)
        requires
            self.inv(),
        ensures
            b == (self.elems().len() == 0),
    {
        self.size() == 0
    }
}

/// A queue over the doubly-linked list: enqueue at the back, dequeue at
/// the front.
pub struct LinkedQueue<T> {
    list: LinkedList<T>,
}

impl<T> LinkedQueue<T> {
    /// Returns an empty queue.
    pub fn new() -> (q: LinkedQueue<T>)
        ensures
            q.inv(),
            q.elems() == Seq::<T>::empty(),
    {
        LinkedQueue { list: LinkedList::new() }
    }

    /// A fresh traversal of the elements, front (oldest) first.
    pub fn iter(&self) -> (it: LinkedIter<'_, T>)
        requires
            self.inv(),
        ensures
            it.inv(),
            it.elems() == self.elems(),
            it.pos() == 0,
    {
        LinkedIter { iter: self.list.iter() }
    }
}

impl<T> Queue<T> for LinkedQueue<T> {
    closed spec fn elems(&self) -> Seq<T> {
        self.list@
    }

    closed spec fn inv(&self) -> bool {
        self.list.wf()
    }

    fn enqueue(&mut self, item: T) {
        self.list.push_back(item)
    }

    fn dequeue(&mut self) -> (r: Option<T>) {
        self.list.pop_front()
    }

    fn size(&self) -> (n: usize) {
        self.list.size()
    }
}

/// A forward traversal of a queue's elements, oldest first.
pub struct LinkedIter<'a, T> {
    iter: Iter<'a, T>,
}

impl<'a, T> LinkedIter<'a, T> {
    /// The elements being traversed, oldest first.
    pub closed spec fn elems(self) -> Seq<T> {
        self.iter.list()@
    }

    /// How many elements have been yielded so far.
    pub closed spec fn pos(self) -> int {
        self.iter.pos()
    }

    /// The traversal's invariant.
    pub closed spec fn inv(self) -> bool {
        self.iter.inv()
    }

    /// Yields a reference to the next element, advancing the traversal;
    /// absent once every element has been yielded.
    pub fn next(&mut self) -> (r: Option<&'a T>)
        requires
            old(self).inv(),
        ensures
            final(self).inv(),
            final(self).elems() == old(self).elems(),
            old(self).pos() < old(self).elems().len() ==> final(self).pos() == old(self).pos()
                + 1 && (r matches Some(v) && *v == old(self).elems()[old(self).pos()]),
            old(self).pos() >= old(self).elems().len() ==> r is None && final(self).pos()
                == old(self).pos(),
    {
        self.iter.next()
    }
}

} // verus!
