//! A bag: insertion and read-only traversal, no removal.

use vstd::prelude::*;

use crate::linked_list::{Iter, LinkedList};
use crate::list::List;

verus! {

/// A bag collects items with no removal; duplicates are kept as separate
/// insertion events.
pub trait Bag<T>: Sized {
    /// The abstract content, in insertion order.
    spec fn elems(&self) -> Seq<T>;

    /// The implementor's internal invariant.
    spec fn inv(&self) -> bool;

    /// Adds `item` to the bag.
    fn add(&mut self, item: T)
        requires
            old(self).inv(),
            old(self).elems().len() < usize::MAX,
        ensures
            final(self).inv(),
            final(self).elems() == old(self).elems().push(item),
    ;

    /// Number of elements held.
    fn size(&self) -> (n: usize)
        requires
            self.inv(),
        ensures
            n == self.elems().len(),
    ;

    /// True exactly when no element is held.
    fn is_empty(&self) -> (b: bool)
        requires
            self.inv(),
        ensures
            b == (self.elems().len() == 0),
    {
        self.size() == 0
    }
}

/// A bag over the doubly-linked list: items are appended at the back.
pub struct LinkedBag<T> {
    list: LinkedList<T>,
}

impl<T> LinkedBag<T> {
    /// Returns an empty bag.
    pub fn new() -> (b: LinkedBag<T>)
        ensures
            b.inv(),
            b.elems() == Seq::<T>::empty(),
    {
        LinkedBag { list: LinkedList::new() }
    }

    /// A fresh traversal of the elements, in insertion order.
    pub fn iter(&self) -> (it: LinkedIter<'_, T>)
        requires
            self.inv(),
        ensures
            it.inv(),
            it.elems() == self.elems(),
            it.pos() == 0,
    {
        LinkedIter { iter: self.list.iter() }
    }
}

impl<T> Bag<T> for LinkedBag<T> {
    closed spec fn elems(&self) -> Seq<T> {
        self.list@
    }

    closed spec fn inv(&self) -> bool {
        self.list.wf()
    }

    fn add(&mut self, item: T) {
        self.list.push_back(item)
    }

    fn size(&self) -> (n: usize) {
        self.list.size()
    }
}

/// A forward traversal of a bag's elements, in insertion order.
pub struct LinkedIter<'a, T> {
    iter: Iter<'a, T>,
}

impl<'a, T> LinkedIter<'a, T> {
    /// The elements being traversed, in insertion order.
    pub closed spec fn elems(self) -> Seq<T> {
        self.iter.list()@
    }

    /// How many elements have been yielded so far.
    pub closed spec fn pos(self) -> int {
        self.iter.pos()
    }

    /// The traversal's invariant.
    pub closed spec fn inv(self) -> bool {
        self.iter.inv()
    }

    /// Yields a reference to the next element, advancing the traversal;
    /// absent once every element has been yielded.
    pub fn next(&mut self) -> (r: Option<&'a T>)
        requires
            old(self).inv(),
        ensures
            final(self).inv(),
            final(self).elems() == old(self).elems(),
            old(self).pos() < old(self).elems().len() ==> final(self).pos() == old(self).pos()
                + 1 && (r matches Some(v) && *v == old(self).elems()[old(self).pos()]),
            old(self).pos() >= old(self).elems().len() ==> r is None && final(self).pos()
                == old(self).pos(),
    {
        self.iter.next()
    }
}

} // verus!
