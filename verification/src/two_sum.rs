//! A single-pass two-sum scan: walks the numbers once, remembering each
//! unpaired value's index in a hash map, and reports a pair whenever the
//! current number's complement was seen before.

use std::collections::HashMap;

use vstd::prelude::*;

verus! {

broadcast use vstd::std_specs::hash::group_hash_axioms;

/// The value-to-index map the scan holds after `k` elements: each value
/// maps to the index where it was seen, except that an element which
/// completed a pair when it was scanned is never remembered.
pub open spec fn seen_upto(nums: Seq<i32>, target: int, k: int) -> Map<int, usize>
    decreases k,
{
    if k <= 0 {
        Map::empty()
    } else {
        let m = seen_upto(nums, target, k - 1);
        if m.dom().contains(target - nums[k - 1]) {
            m
        } else {
            m.insert(nums[k - 1] as int, (k - 1) as usize)
        }
    }
}

/// The pairs reported after scanning `k` elements, in scan order: when
/// the element at `i` finds its complement remembered at `j`, the pair
/// `(j, i)` is reported and the element at `i` is not remembered.
pub open spec fn pairs_upto(nums: Seq<i32>, target: int, k: int) -> Seq<(usize, usize)>
    decreases k,
{
    if k <= 0 {
        Seq::empty()
    } else {
        let m = seen_upto(nums, target, k - 1);
        if m.dom().contains(target - nums[k - 1]) {
            pairs_upto(nums, target, k - 1).push((m[target - nums[k - 1]], (k - 1) as usize))
        } else {
            pairs_upto(nums, target, k - 1)
        }
    }
}

/// Walks `nums` once and reports, in scan order, each pair of indices
/// `(j, i)` with `j < i` whose values sum to `target`, pairing every
/// element at most once as described by `pairs_upto`.
pub fn two_sum(nums: &Vec<i32>, target: i32) -> (r: Vec<(usize, usize)>)
    requires
        forall|k: int| 0 <= k < nums@.len() ==> i32::MIN <= target - #[trigger] nums@[k]
            <= i32::MAX,
    ensures
        r@ == pairs_upto(nums@, target as int, nums@.len() as int),
        forall|k: int| 0 <= k < r@.len() ==> {
            &&& (#[trigger] r@[k]).0 < r@[k].1 < nums@.len()
            &&& nums@[r@[k].0 as int] + nums@[r@[k].1 as int] == target
        },
{
    let mut result: Vec<(usize, usize)> = Vec::new();
    let mut seen: HashMap<i32, usize> = HashMap::new();
    let mut i: usize = 0;
    while i < nums.len()
        invariant
            i <= nums@.len(),
            forall|k: int| 0 <= k < nums@.len() ==> i32::MIN <= target - #[trigger] nums@[k]
                <= i32::MAX,
            forall|x: i32|
                #![trigger seen@.contains_key(x)]
                #![trigger seen_upto(nums@, target as int, i as int).dom().contains(x as int)]
                seen@.contains_key(x) <==> seen_upto(nums@, target as int, i as int).dom().contains(
                    x as int,
                ),
            forall|x: i32| #[trigger] seen@.contains_key(x) ==> seen@[x] == seen_upto(
                nums@,
                target as int,
                i as int,
            )[x as int],
            forall|x: i32| #[trigger] seen@.contains_key(x) ==> seen@[x] < i && nums@[
                seen@[x] as int
            ] == x,
            result@ == pairs_upto(nums@, target as int, i as int),
            forall|k: int| 0 <= k < result@.len() ==> {
                &&& (#[trigger] result@[k]).0 < result@[k].1 < i
                &&& nums@[result@[k].0 as int] + nums@[result@[k].1 as int] == target
            },
        decreases nums@.len() - i,
    {
        let d = target - nums[i];
        if seen.contains_key(&d) {
            let idx = *seen.get(&d).unwrap();
            result.push((idx, i));
        } else {
            seen.insert(nums[i], i);
        }
        i += 1;
    }
    result
}

} // verus!
