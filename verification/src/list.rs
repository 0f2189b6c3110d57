//! The capability contract that every list-like container of this crate
//! offers: a size, pushes and pops at both ends, and clearing.

use vstd::prelude::*;

verus! {

/// A sequence container with O(1) access to both ends.
///
/// `elems` is the abstract content, front to back; `inv` is the
/// implementor's well-formedness condition, which every operation
/// preserves.
pub trait List<T>: Sized {
    /// The abstract content of the container, front to back.
    spec fn elems(&self) -> Seq<T>;

    /// The implementor's internal invariant.
    spec fn inv(&self) -> bool;

    /// Number of elements held.
    fn size(&self) -> (n: usize)
        requires
            self.inv(),
        ensures
            n == self.elems().len(),
    ;

    /// True exactly when no element is held.
    fn is_empty(&self) -> (b: bool)
        requires
            self.inv(),
        ensures
            b == (self.elems().len() == 0),
    {
        self.size() == 0
    }

    /// True exactly when at least one element is held.
    fn non_empty(&self) -> (b: bool)
        requires
            self.inv(),
        ensures
            b == (self.elems().len() != 0),
    {
        self.size() != 0
    }

    /// Appends `elem` at the back.
    fn push_back(&mut self, elem: T)
        requires
            old(self).inv(),
            old(self).elems().len() < usize::MAX,
        ensures
            final(self).inv(),
            final(self).elems() == old(self).elems().push(elem),
    ;

    /// Prepends `elem` at the front.
    fn push_front(&mut self, elem: T)
        requires
            old(self).inv(),
            old(self).elems().len() < usize::MAX,
        ensures
            final(self).inv(),
            final(self).elems() == seq![elem] + old(self).elems(),
    ;

    /// Removes and returns the back element; absent when empty.
    fn pop_back(&mut self) -> (r: Option<T>)
        requires
            old(self).inv(),
        ensures
            final(self).inv(),
            old(self).elems().len() == 0 ==> r is None && final(self).elems() == old(self).elems(),
            old(self).elems().len() != 0 ==> r == Some(old(self).elems().last())
                && final(self).elems() == old(self).elems().drop_last(),
    ;

    /// Removes and returns the front element; absent when empty.
    fn pop_front(&mut self) -> (r: Option<T>)
        requires
            old(self).inv(),
        ensures
            final(self).inv(),
            old(self).elems().len() == 0 ==> r is None && final(self).elems() == old(self).elems(),
            old(self).elems().len() != 0 ==> r == Some(old(self).elems().first())
                && final(self).elems() == old(self).elems().drop_first(),
    ;

    /// Removes every element, front to back.
    fn clear(&mut self)
        requires
            old(self).inv(),
        ensures
            final(self).inv(),
            final(self).elems() == Seq::<T>::empty(),
    ;
}

} // verus!
