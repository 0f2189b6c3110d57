//! A doubly-linked list over a slot arena.
//!
//! Nodes live in a `Vec` arena and refer to their neighbours by slot
//! index instead of by pointer: the forward index stands for the owning
//! "next" link of a classic linked list, the backward index for the
//! non-owning back-pointer used for O(1) removal at either end. Freed
//! slots are kept on a free list and reused by later pushes.
//!
//! The well-formedness invariant ties a ghost chain of slot indices to
//! the arena: the chain holds the live slots front to back, each live
//! slot's forward and backward indices agree with its position in the
//! chain, `head` and `tail` name the chain's ends, and free slots are
//! disjoint from live ones.

use vstd::prelude::*;

use crate::list::List;

verus! {

/// One slot of the arena: an element (absent in free slots) and the
/// forward and backward neighbour indices.
struct Node<T> {
    elem: Option<T>,
    prev: Option<usize>,
    next: Option<usize>,
}

/// A doubly-linked list of `T` with O(1) pushes and pops at both ends.
pub struct LinkedList<T> {
    nodes: Vec<Node<T>>,
    free: Vec<usize>,
    head: Option<usize>,
    tail: Option<usize>,
    size: usize,
    chain: Ghost<Seq<usize>>,
}

impl<T> LinkedList<T> {
    /// Every live slot index is within the arena.
    spec fn chain_in_bounds(self) -> bool {
        forall|k: int| 0 <= k < self.chain@.len() ==> #[trigger] (self.chain@[k] as int)
            < self.nodes@.len()
    }

    /// No slot occurs twice in the chain.
    spec fn chain_distinct(self) -> bool {
        forall|k1: int, k2: int|
            0 <= k1 < k2 < self.chain@.len() ==> #[trigger] self.chain@[k1]
                != #[trigger] self.chain@[k2]
    }

    /// Each live slot holds an element and links to its chain neighbours:
    /// the forward index points one step towards the tail, the backward
    /// index one step towards the head.
    spec fn links_ok(self) -> bool {
        forall|k: int| 0 <= k < self.chain@.len() ==> {
            let node = self.nodes@[#[trigger] self.chain@[k] as int];
            &&& node.elem is Some
            &&& node.next == (if k + 1 < self.chain@.len() {
                Some(self.chain@[k + 1])
            } else {
                None::<usize>
            })
            &&& node.prev == (if k > 0 {
                Some(self.chain@[k - 1])
            } else {
                None::<usize>
            })
        }
    }

    /// `head` and `tail` name the first and last live slot, and `size`
    /// counts the live slots.
    spec fn ends_ok(self) -> bool {
        &&& self.size == self.chain@.len()
        &&& self.head == (if self.chain@.len() > 0 {
            Some(self.chain@[0])
        } else {
            None::<usize>
        })
        &&& self.tail == (if self.chain@.len() > 0 {
            Some(self.chain@[self.chain@.len() - 1])
        } else {
            None::<usize>
        })
    }

    /// Free slots are within the arena, pairwise distinct, and never live.
    spec fn free_ok(self) -> bool {
        &&& forall|k: int| 0 <= k < self.free@.len() ==> #[trigger] (self.free@[k] as int)
            < self.nodes@.len()
        &&& forall|k1: int, k2: int|
            0 <= k1 < k2 < self.free@.len() ==> #[trigger] self.free@[k1]
                != #[trigger] self.free@[k2]
        &&& forall|k1: int, k2: int|
            0 <= k1 < self.free@.len() && 0 <= k2 < self.chain@.len()
                ==> #[trigger] self.free@[k1] != #[trigger] self.chain@[k2]
    }

    /// The list's internal invariant: the ghost chain, the arena, the end
    /// handles and the free list agree.
    pub closed spec fn wf(self) -> bool {
        &&& self.chain_in_bounds()
        &&& self.chain_distinct()
        &&& self.links_ok()
        &&& self.ends_ok()
        &&& self.free_ok()
    }

    /// Returns an empty list: size 0, no head, no tail.
    pub fn new() -> (l: LinkedList<T>)
        ensures
            l.wf(),
            l@ == Seq::<T>::empty(),
    {
        let l = LinkedList {
            nodes: Vec::new(),
            free: Vec::new(),
            head: None,
            tail: None,
            size: 0,
            chain: Ghost(Seq::empty()),
        };
        proof {
            assert(l@ =~= Seq::<T>::empty());
        }
        l
    }

    /// Places `e` in a fresh slot, reusing a free slot when one exists.
    /// The new slot is live to nobody yet: it is outside the chain and
    /// outside the free list, with no neighbours.
    fn new_slot(&mut self, e: T) -> (i: usize)
        requires
            old(self).wf(),
        ensures
            final(self).wf(),
            final(self).chain == old(self).chain,
            final(self).head == old(self).head,
            final(self).tail == old(self).tail,
            final(self).size == old(self).size,
            final(self)@ == old(self)@,
            i < final(self).nodes@.len(),
            final(self).nodes@[i as int].elem == Some(e),
            final(self).nodes@[i as int].prev is None,
            final(self).nodes@[i as int].next is None,
            forall|k: int| 0 <= k < final(self).chain@.len()
                ==> #[trigger] final(self).chain@[k] != i,
            forall|k: int| 0 <= k < final(self).free@.len()
                ==> #[trigger] final(self).free@[k] != i,
            forall|j: int|
                0 <= j < old(self).nodes@.len() && j != i
                    ==> final(self).nodes@[j] == old(self).nodes@[j],
            old(self).nodes@.len() <= final(self).nodes@.len(),
    {
        let node = Node { elem: Some(e), prev: None, next: None };
        let i: usize;
        match self.free.pop() {
            Some(f) => {
                self.nodes[f] = node;
                i = f;
            }
            None => {
                i = self.nodes.len();
                self.nodes.push(node);
            }
        }
        proof {
            assert(self@ =~= old(self)@);
        }
        i
    }
}

impl<T> LinkedList<T> {
    /// A fresh forward traversal of the elements, front to back. It is
    /// valid as long as the list is not mutated: the borrow rules make
    /// structural changes impossible while it lives.
    pub fn iter(&self) -> (it: Iter<'_, T>)
        requires
            self.wf(),
        ensures
            it.inv(),
            it.list() == *self,
            it.pos() == 0,
    {
        Iter { list: self, cursor: self.head, pos: Ghost(0) }
    }
}

/// A forward traversal yielding immutable references, front to back.
pub struct Iter<'a, T> {
    list: &'a LinkedList<T>,
    cursor: Option<usize>,
    pos: Ghost<int>,
}

impl<'a, T> Iter<'a, T> {
    /// The list being traversed.
    pub closed spec fn list(self) -> LinkedList<T> {
        *self.list
    }

    /// How many elements have been yielded so far.
    pub closed spec fn pos(self) -> int {
        self.pos@
    }

    /// The traversal's invariant: the cursor stands on the slot of the
    /// next element to yield, or is absent at the end.
    pub closed spec fn inv(self) -> bool {
        &&& self.list.wf()
        &&& 0 <= self.pos@ <= self.list@.len()
        &&& self.cursor == (if self.pos@ < self.list.chain@.len() {
            Some(self.list.chain@[self.pos@])
        } else {
            None::<usize>
        })
    }

    /// Yields a reference to the next element, advancing the traversal;
    /// absent once every element has been yielded.
    pub fn next(&mut self) -> (r: Option<&'a T>)
        requires
            old(self).inv(),
        ensures
            final(self).inv(),
            final(self).list() == old(self).list(),
            old(self).pos() < old(self).list()@.len() ==> final(self).pos() == old(self).pos()
                + 1 && (r matches Some(v) && *v == old(self).list()@[old(self).pos()]),
            old(self).pos() >= old(self).list()@.len() ==> r is None && final(self).pos()
                == old(self).pos(),
    {
        match self.cursor {
            None => None,
            Some(c) => {
                let lst: &'a LinkedList<T> = self.list;
                let node = &lst.nodes[c];
                self.cursor = node.next;
                proof {
                    self.pos@ = self.pos@ + 1;
                }
                match &node.elem {
                    Some(e) => Some(e),
                    None => {
                        proof {
                            assert(false);
                        }
                        None
                    }
                }
            }
        }
    }
}

impl<T> LinkedList<T> {
    /// A fresh forward traversal yielding mutable references, front to
    /// back. Element contents may change through it; the structure (count
    /// and links) cannot, since the traversal holds the only borrow.
    pub fn iter_mut(&mut self) -> (it: IterMut<'_, T>)
        requires
            old(self).wf(),
        ensures
            it.inv(),
            it.cur() == *old(self),
            it.pos() == 0,
    {
        let cursor = self.head;
        IterMut { list: self, cursor, pos: Ghost(0) }
    }
}

/// A forward traversal yielding mutable references, front to back.
pub struct IterMut<'a, T> {
    list: &'a mut LinkedList<T>,
    cursor: Option<usize>,
    pos: Ghost<int>,
}

impl<'a, T> IterMut<'a, T> {
    /// The list as the traversal currently sees it.
    pub closed spec fn cur(self) -> LinkedList<T> {
        *self.list
    }

    /// How many elements have been yielded so far.
    pub closed spec fn pos(self) -> int {
        self.pos@
    }

    /// The traversal's invariant: the cursor stands on the slot of the
    /// next element to yield, or is absent at the end.
    pub closed spec fn inv(self) -> bool {
        &&& self.cur().wf()
        &&& 0 <= self.pos@ <= self.cur()@.len()
        &&& self.cursor == (if self.pos@ < self.cur().chain@.len() {
            Some(self.cur().chain@[self.pos@])
        } else {
            None::<usize>
        })
    }

    /// Yields a mutable reference to the next element and advances. The
    /// element may be rewritten in place: the list the traversal sees
    /// afterwards is the old one with that position updated.
    pub fn next(&mut self) -> (r: Option<&mut T>)
        requires
            old(self).inv(),
        ensures
            final(self).inv(),
            old(self).pos() >= old(self).cur()@.len() ==> r is None && final(self).cur()
                == old(self).cur() && final(self).pos() == old(self).pos(),
            old(self).pos() < old(self).cur()@.len() ==> final(self).pos() == old(self).pos()
                + 1 && (r matches Some(v) ==> *v == old(self).cur()@[old(self).pos()]
                && final(self).cur()@ == old(self).cur()@.update(old(self).pos(), *final(v))),
            old(self).pos() < old(self).cur()@.len() ==> r is Some,
    {
        match self.cursor {
            None => None,
            Some(c) => {
                let node = &mut self.list.nodes[c];
                self.cursor = node.next;
                proof {
                    self.pos@ = self.pos@ + 1;
                }
                match &mut node.elem {
                    Some(e) => Some(e),
                    None => {
                        proof {
                            assert(false);
                        }
                        None
                    }
                }
            }
        }
    }
}

impl<T> View for LinkedList<T> {
    type V = Seq<T>;

    /// The elements held, front to back.
    closed spec fn view(&self) -> Seq<T> {
        Seq::new(
            self.chain@.len(),
            |k: int| self.nodes@[self.chain@[k] as int].elem.unwrap(),
        )
    }
}

impl<T> List<T> for LinkedList<T> {
    open spec fn elems(&self) -> Seq<T> {
        self@
    }

    open spec fn inv(&self) -> bool {
        self.wf()
    }

    fn size(&self) -> (n: usize) {
        proof {
            assert(self.inv() && self.wf());
            assert(self.elems() == self@);
            assert(self@.len() == self.chain@.len());
        }
        self.size
    }

    fn push_back(&mut self, elem: T) {
        let i = self.new_slot(elem);
        match self.tail {
            None => {
                self.head = Some(i);
                self.tail = Some(i);
            }
            Some(t) => {
                self.nodes[t].next = Some(i);
                self.nodes[i].prev = Some(t);
                self.tail = Some(i);
            }
        }
        self.size = self.size + 1;
        proof {
            self.chain@ = self.chain@.push(i);
            assert(self@ =~= old(self)@.push(elem));
        }
    }

    #[verifier::rlimit(50)]
    fn push_front(&mut self, elem: T) {
        let i = self.new_slot(elem);
        match self.head {
            None => {
                self.head = Some(i);
                self.tail = Some(i);
            }
            Some(h) => {
                self.nodes[h].prev = Some(i);
                self.nodes[i].next = Some(h);
                self.head = Some(i);
            }
        }
        self.size = self.size + 1;
        proof {
            let c0 = self.chain@;
            self.chain@ = seq![i] + c0;
            let c = self.chain@;
            assert(c[0] == i && c.len() == c0.len() + 1);
            assert(forall|k: int| 0 <= k < c0.len() ==> c[k + 1] == #[trigger] c0[k]);
            assert(self.links_ok()) by {
                assert forall|k: int| 0 <= k < c.len() implies {
                    let node = self.nodes@[#[trigger] c[k] as int];
                    &&& node.elem is Some
                    &&& node.next == (if k + 1 < c.len() { Some(c[k + 1]) } else { None::<usize> })
                    &&& node.prev == (if k > 0 { Some(c[k - 1]) } else { None::<usize> })
                } by {
                    if k >= 2 {
                        assert(c[k] == c0[k - 1] && c0[k - 1] != c0[0]);
                    }
                }
            }
            assert(self@ =~= seq![elem] + old(self)@);
        }
    }

    fn pop_back(&mut self) -> (r: Option<T>) {
        match self.tail {
            None => None,
            Some(t) => {
                let e = self.nodes[t].elem.take();
                match self.nodes[t].prev {
                    None => {
                        self.head = None;
                        self.tail = None;
                    }
                    Some(p) => {
                        self.nodes[p].next = None;
                        self.tail = Some(p);
                    }
                }
                self.size = self.size - 1;
                self.free.push(t);
                proof {
                    self.chain@ = self.chain@.drop_last();
                    assert(self@ =~= old(self)@.drop_last());
                }
                Some(e.unwrap())
            }
        }
    }

    fn pop_front(&mut self) -> (r: Option<T>) {
        match self.head {
            None => None,
            Some(h) => {
                let e = self.nodes[h].elem.take();
                match self.nodes[h].next {
                    None => {
                        self.head = None;
                        self.tail = None;
                    }
                    Some(n) => {
                        self.nodes[n].prev = None;
                        self.head = Some(n);
                    }
                }
                self.size = self.size - 1;
                self.free.push(h);
                proof {
                    self.chain@ = self.chain@.drop_first();
                    assert(self@ =~= old(self)@.drop_first());
                }
                Some(e.unwrap())
            }
        }
    }

    fn clear(&mut self) {
        while self.non_empty()
            invariant
                self.wf(),
            decreases self@.len(),
        {
            let _ = self.pop_front();
        }
        proof {
            assert(self@ =~= Seq::<T>::empty());
        }
    }
}

} // verus!
