//! Laws of the list contract, proved over the sequence view that the
//! operations' contracts speak of: `push_back` appends, `push_front`
//! prepends, `pop_back` removes the last element, `pop_front` the first.

use vstd::prelude::*;

verus! {

/// The view after `push_back`: the element joins at the back.
pub open spec fn push_back_elems<T>(s: Seq<T>, x: T) -> Seq<T> {
    s.push(x)
}

/// The view after `push_front`: the element joins at the front.
pub open spec fn push_front_elems<T>(s: Seq<T>, x: T) -> Seq<T> {
    seq![x] + s
}

/// The view after `pop_back`, with the returned element.
pub open spec fn pop_back_elems<T>(s: Seq<T>) -> (Seq<T>, Option<T>) {
    if s.len() == 0 {
        (s, None)
    } else {
        (s.drop_last(), Some(s.last()))
    }
}

/// The view after `pop_front`, with the returned element.
pub open spec fn pop_front_elems<T>(s: Seq<T>) -> (Seq<T>, Option<T>) {
    if s.len() == 0 {
        (s, None)
    } else {
        (s.drop_first(), Some(s.first()))
    }
}

/// One operation of the list contract.
pub enum ListOp<T> {
    PushBack(T),
    PushFront(T),
    PopBack,
    PopFront,
}

/// The view after one operation.
pub open spec fn apply_op<T>(s: Seq<T>, op: ListOp<T>) -> Seq<T> {
    match op {
        ListOp::PushBack(x) => push_back_elems(s, x),
        ListOp::PushFront(x) => push_front_elems(s, x),
        ListOp::PopBack => pop_back_elems(s).0,
        ListOp::PopFront => pop_front_elems(s).0,
    }
}

/// The view after a whole sequence of operations, first to last.
pub open spec fn apply_ops<T>(s: Seq<T>, ops: Seq<ListOp<T>>) -> Seq<T>
    decreases ops.len(),
{
    if ops.len() == 0 {
        s
    } else {
        apply_ops(apply_op(s, ops.first()), ops.drop_first())
    }
}

/// How many of the operations push.
pub open spec fn pushes<T>(ops: Seq<ListOp<T>>) -> nat
    decreases ops.len(),
{
    if ops.len() == 0 {
        0
    } else {
        (match ops.first() {
            ListOp::PushBack(_) => 1 as nat,
            ListOp::PushFront(_) => 1 as nat,
            ListOp::PopBack => 0 as nat,
            ListOp::PopFront => 0 as nat,
        }) + pushes(ops.drop_first())
    }
}

/// How many of the operations, run from `s`, pop an element rather than
/// finding the list empty.
pub open spec fn successful_pops<T>(s: Seq<T>, ops: Seq<ListOp<T>>) -> nat
    decreases ops.len(),
{
    if ops.len() == 0 {
        0
    } else {
        (match ops.first() {
            ListOp::PushBack(_) => 0 as nat,
            ListOp::PushFront(_) => 0 as nat,
            ListOp::PopBack => if s.len() > 0 { 1 as nat } else { 0 as nat },
            ListOp::PopFront => if s.len() > 0 { 1 as nat } else { 0 as nat },
        }) + successful_pops(apply_op(s, ops.first()), ops.drop_first())
    }
}

/// After any sequence of pushes and pops, the element count equals the
/// starting count plus the pushes minus the successful pops; stated with
/// the pops added to the left side, so every quantity is a count that
/// cannot go below zero.
pub proof fn lemma_size_after_ops<T>(s: Seq<T>, ops: Seq<ListOp<T>>)
    ensures
        apply_ops(s, ops).len() + successful_pops(s, ops) == s.len() + pushes(ops),
    decreases ops.len(),
{
    if ops.len() > 0 {
        lemma_size_after_ops(apply_op(s, ops.first()), ops.drop_first());
    }
}

/// The view after pushing every element of `xs` at the back, in order.
pub open spec fn push_all_back<T>(s: Seq<T>, xs: Seq<T>) -> Seq<T>
    decreases xs.len(),
{
    if xs.len() == 0 {
        s
    } else {
        push_all_back(push_back_elems(s, xs.first()), xs.drop_first())
    }
}

/// The view after pushing every element of `xs` at the front, in order.
pub open spec fn push_all_front<T>(s: Seq<T>, xs: Seq<T>) -> Seq<T>
    decreases xs.len(),
{
    if xs.len() == 0 {
        s
    } else {
        push_all_front(push_front_elems(s, xs.first()), xs.drop_first())
    }
}

/// The elements yielded by `n` front pops, in pop order.
pub open spec fn pop_front_yields<T>(s: Seq<T>, n: nat) -> Seq<T>
    decreases n,
{
    if n == 0 || s.len() == 0 {
        Seq::empty()
    } else {
        seq![s.first()] + pop_front_yields(s.drop_first(), (n - 1) as nat)
    }
}

/// The elements yielded by `n` back pops, in pop order.
pub open spec fn pop_back_yields<T>(s: Seq<T>, n: nat) -> Seq<T>
    decreases n,
{
    if n == 0 || s.len() == 0 {
        Seq::empty()
    } else {
        seq![s.last()] + pop_back_yields(s.drop_last(), (n - 1) as nat)
    }
}

/// Pushing at the back appends: the view after pushing all of `xs` is
/// the old view followed by `xs`.
pub proof fn lemma_push_all_back<T>(s: Seq<T>, xs: Seq<T>)
    ensures
        push_all_back(s, xs) == s + xs,
    decreases xs.len(),
{
    if xs.len() == 0 {
        assert(s + xs =~= s);
    } else {
        lemma_push_all_back(s.push(xs.first()), xs.drop_first());
        assert(s.push(xs.first()) + xs.drop_first() =~= s + xs);
    }
}

/// Pushing at the front reverses: the view after pushing all of `xs` is
/// `xs` reversed, followed by the old view.
pub proof fn lemma_push_all_front<T>(s: Seq<T>, xs: Seq<T>)
    ensures
        push_all_front(s, xs) == xs.reverse() + s,
    decreases xs.len(),
{
    if xs.len() == 0 {
        assert(xs.reverse() + s =~= s);
    } else {
        lemma_push_all_front(seq![xs.first()] + s, xs.drop_first());
        assert(xs.drop_first().reverse() + (seq![xs.first()] + s) =~= xs.reverse() + s);
    }
}

/// Front pops yield a prefix: `n` front pops yield the first `n`
/// elements, in order.
pub proof fn lemma_pop_front_yields_take<T>(s: Seq<T>, n: nat)
    requires
        n <= s.len(),
    ensures
        pop_front_yields(s, n) == s.take(n as int),
    decreases n,
{
    if n == 0 {
        assert(s.take(0) =~= Seq::<T>::empty());
    } else {
        lemma_pop_front_yields_take(s.drop_first(), (n - 1) as nat);
        assert(seq![s.first()] + s.drop_first().take(n - 1) =~= s.take(n as int));
    }
}

/// Back pops yield the elements in reverse: popping everything from the
/// back yields the whole view reversed.
pub proof fn lemma_pop_back_yields_reverse<T>(s: Seq<T>)
    ensures
        pop_back_yields(s, s.len()) == s.reverse(),
    decreases s.len(),
{
    if s.len() > 0 {
        lemma_pop_back_yields_reverse(s.drop_last());
        assert(seq![s.last()] + s.drop_last().reverse() =~= s.reverse());
    }
}

/// The queue discipline is first-in-first-out: pushing `xs` at the back
/// of an empty list and then popping the front that many times yields
/// exactly `xs`, in push order.
pub proof fn lemma_fifo<T>(xs: Seq<T>)
    ensures
        pop_front_yields(push_all_back(Seq::empty(), xs), xs.len()) == xs,
{
    lemma_push_all_back(Seq::empty(), xs);
    assert(Seq::empty() + xs =~= xs);
    lemma_pop_front_yields_take(xs, xs.len());
    assert(xs.take(xs.len() as int) =~= xs);
}

/// The stack discipline is last-in-first-out: pushing `xs` at the front
/// of an empty list and then popping the front that many times yields
/// `xs` in reverse push order.
pub proof fn lemma_lifo_front<T>(xs: Seq<T>)
    ensures
        pop_front_yields(push_all_front(Seq::empty(), xs), xs.len()) == xs.reverse(),
{
    lemma_push_all_front(Seq::empty(), xs);
    assert(xs.reverse() + Seq::empty() =~= xs.reverse());
    lemma_pop_front_yields_take(xs.reverse(), xs.len());
    assert(xs.reverse().take(xs.len() as int) =~= xs.reverse());
}

/// Pushing at the back and popping at the back is last-in-first-out too.
pub proof fn lemma_lifo_back<T>(xs: Seq<T>)
    ensures
        pop_back_yields(push_all_back(Seq::empty(), xs), xs.len()) == xs.reverse(),
{
    lemma_push_all_back(Seq::empty(), xs);
    assert(Seq::empty() + xs =~= xs);
    lemma_pop_back_yields_reverse(xs);
}

/// The view left behind after `n` front pops.
pub open spec fn pop_front_rest<T>(s: Seq<T>, n: nat) -> Seq<T>
    decreases n,
{
    if n == 0 {
        s
    } else {
        pop_front_rest(pop_front_elems(s).0, (n - 1) as nat)
    }
}

/// The view left behind after `n` back pops.
pub open spec fn pop_back_rest<T>(s: Seq<T>, n: nat) -> Seq<T>
    decreases n,
{
    if n == 0 {
        s
    } else {
        pop_back_rest(pop_back_elems(s).0, (n - 1) as nat)
    }
}

/// Popping the front as many times as the view holds leaves it empty,
/// and one more front pop yields nothing.
pub proof fn lemma_round_trip_front<T>(s: Seq<T>)
    ensures
        pop_front_rest(s, s.len()) == Seq::<T>::empty(),
        pop_front_elems(pop_front_rest(s, s.len())).1 == None::<T>,
    decreases s.len(),
{
    if s.len() > 0 {
        lemma_round_trip_front(s.drop_first());
    }
}

/// Popping the back as many times as the view holds leaves it empty,
/// and one more back pop yields nothing.
pub proof fn lemma_round_trip_back<T>(s: Seq<T>)
    ensures
        pop_back_rest(s, s.len()) == Seq::<T>::empty(),
        pop_back_elems(pop_back_rest(s, s.len())).1 == None::<T>,
    decreases s.len(),
{
    if s.len() > 0 {
        lemma_round_trip_back(s.drop_last());
    }
}

/// Symmetry of the two ends: on an otherwise-empty list, a front push
/// followed by a back pop returns the pushed element and leaves the list
/// empty again.
pub proof fn lemma_push_front_pop_back<T>(x: T)
    ensures
        pop_back_elems(push_front_elems(Seq::<T>::empty(), x)).1 == Some(x),
        pop_back_elems(push_front_elems(Seq::<T>::empty(), x)).0 == Seq::<T>::empty(),
{
    assert(push_front_elems(Seq::<T>::empty(), x) =~= seq![x]);
    assert(seq![x].drop_last() =~= Seq::<T>::empty());
}

/// Symmetry of the two ends: on an otherwise-empty list, a back push
/// followed by a front pop returns the pushed element and leaves the
/// list empty again.
pub proof fn lemma_push_back_pop_front<T>(x: T)
    ensures
        pop_front_elems(push_back_elems(Seq::<T>::empty(), x)).1 == Some(x),
        pop_front_elems(push_back_elems(Seq::<T>::empty(), x)).0 == Seq::<T>::empty(),
{
    assert(push_back_elems(Seq::<T>::empty(), x) =~= seq![x]);
    assert(seq![x].drop_first() =~= Seq::<T>::empty());
}

} // verus!
