//! Classic data structures and algorithms, verified.
//!
//! The core is a doubly-linked list backed by a slot arena, with stack,
//! queue and bag adapters built on its capability contract, plus binary
//! search variants, sorting routines and a two-sum scan.

use vstd::prelude::*;

pub mod bag;
pub mod binary_search;
pub mod laws;
pub mod linked_list;
pub mod list;
pub mod queue;
pub mod sort;
pub mod stack;
pub mod two_sum;

verus! {

/// `s` is in non-decreasing order.
pub open spec fn sorted(s: Seq<i32>) -> bool {
    forall|i: int, j: int| 0 <= i < j < s.len() ==> s[i] <= s[j]
}

/// `s` is in strictly increasing order: sorted, with no value twice.
pub open spec fn strictly_sorted(s: Seq<i32>) -> bool {
    forall|i: int, j: int| 0 <= i < j < s.len() ==> s[i] < s[j]
}

} // verus!
