//! A last-in-first-out stack built on the list contract alone.

use vstd::prelude::*;

use crate::linked_list::{Iter, LinkedList};
use crate::list::List;

verus! {

/// A stack: push and pop at the same end, so the newest element leaves
/// first.
pub trait Stack<T>: Sized {
    /// The abstract content, top first.
    spec fn elems(&self) -> Seq<T>;

    /// The implementor's internal invariant.
    spec fn inv(&self) -> bool;

    /// Places `item` on top.
    fn push(&mut self, item: T)
        requires
            old(self).inv(),
            old(self).elems().len() < usize::MAX,
        ensures
            final(self).inv(),
            final(self).elems() == seq![item] + old(self).elems(),
    ;

    /// Removes and returns the top element; absent when empty.
    fn pop(&mut self) -> (r: Option<T>)
        requires
            old(self).inv(),
        ensures
            final(self).inv(),
            old(self).elems().len() == 0 ==> r is None && final(self).elems() == old(self).elems(),
            old(self).elems().len() != 0 ==> r == Some(old(self).elems().first())
                && final(self).elems() == old(self).elems().drop_first(),
    ;

    /// Number of elements held.
    fn size(&self) -> (n: usize)
        requires
            self.inv(),
        ensures
            n == self.elems().len(),
    ;

    /// True exactly when no element is held.
    fn is_empty(&self) -> (b: bool)
        requires
            self.inv(),
        ensures
            b == (self.elems().len() == 0),
    {
        self.size() == 0
    }
}

/// A stack over the doubly-linked list: push and pop work on the front.
pub struct LinkedStack<T> {
    list: LinkedList<T>,
}

impl<T> LinkedStack<T> {
    /// Returns an empty stack.
    pub fn new() -> (s: LinkedStack<T>)
        ensures
            s.inv(),
            s.elems() == Seq::<T>::empty(),
    {
        LinkedStack { list: LinkedList::new() }
    }

    /// A fresh traversal of the elements, top first.
    pub fn iter(&self) -> (it: LinkedIter<'_, T>)
        requires
            self.inv(),
        ensures
            it.inv(),
            it.elems() == self.elems(),
            it.pos() == 0,
    {
        LinkedIter { iter: self.list.iter() }
    }
}

impl<T> Stack<T> for LinkedStack<T> {
    closed spec fn elems(&self) -> Seq<T> {
        self.list@
    }

    closed spec fn inv(&self) -> bool {
        self.list.wf()
    }

    fn push(&mut self, item: T) {
        self.list.push_front(item)
    }

    fn pop(&mut self) -> (r: Option<T>) {
        self.list.pop_front()
    }

    fn size(&self) -> (n: usize) {
        self.list.size()
    }
}

/// A forward traversal of a stack's elements, top first.
pub struct LinkedIter<'a, T> {
    iter: Iter<'a, T>,
}

impl<'a, T> LinkedIter<'a, T> {
    /// The elements being traversed, top first.
    pub closed spec fn elems(self) -> Seq<T> {
        self.iter.list()@
    }

    /// How many elements have been yielded so far.
    pub closed spec fn pos(self) -> int {
        self.iter.pos()
    }

    /// The traversal's invariant.
    pub closed spec fn inv(self) -> bool {
        self.iter.inv()
    }

    /// Yields a reference to the next element, advancing the traversal;
    /// absent once every element has been yielded.
    pub fn next(&mut self) -> (r: Option<&'a T>)
        requires
            old(self).inv(),
        ensures
            final(self).inv(),
            final(self).elems() == old(self).elems(),
            old(self).pos() < old(self).elems().len() ==> final(self).pos() == old(self).pos()
                + 1 && (r matches Some(v) && *v == old(self).elems()[old(self).pos()]),
            old(self).pos() >= old(self).elems().len() ==> r is None && final(self).pos()
                == old(self).pos(),
    {
        self.iter.next()
    }
}

} // verus!
