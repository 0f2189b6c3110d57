//! Binary search over sorted sequences: plain search, first and last
//! occurrence, first at-least and last at-most, and search in a rotated
//! sorted sequence.

use vstd::prelude::*;

use crate::{sorted, strictly_sorted};

verus! {

/// `s` is a rotation of a strictly increasing sequence, split at `r`:
/// the run from `r` to the end ascends, the run before `r` ascends, and
/// every element of the first run is below every element of the second.
/// `r == 0` or `r == s.len()` mean the sequence is not rotated at all.
pub open spec fn cycled_sorted_at(s: Seq<i32>, r: int) -> bool {
    &&& 0 <= r <= s.len()
    &&& forall|i: int, j: int| 0 <= i < j < s.len() && (r <= i || j < r) ==> s[i] < s[j]
    &&& forall|i: int, j: int| 0 <= i < r && r <= j < s.len() ==> s[j] < s[i]
}

/// `s` is a rotation of some strictly increasing sequence.
pub open spec fn cycled_sorted(s: Seq<i32>) -> bool {
    exists|r: int| cycled_sorted_at(s, r)
}

/// Basic binary search in a strictly sorted sequence: returns the index
/// of `v` exactly when `v` occurs.
pub fn binary_search(a: &Vec<i32>, v: i32) -> (r: Option<usize>)
    requires
        strictly_sorted(a@),
    ensures
        r matches Some(i) ==> i < a@.len() && a@[i as int] == v,
        r is None ==> forall|k: int| 0 <= k < a@.len() ==> a@[k] != v,
{
    let mut low: usize = 0;
    let mut high: usize = a.len();
    while low < high
        invariant
            low <= high <= a@.len(),
            strictly_sorted(a@),
            forall|k: int| 0 <= k < a@.len() && a@[k] == v ==> low <= k < high,
        decreases high - low,
    {
        let mid = low + (high - low) / 2;
        if a[mid] == v {
            return Some(mid);
        } else if a[mid] < v {
            low = mid + 1;
        } else {
            high = mid;
        }
    }
    None
}

/// Binary search for the first occurrence of `v` in a sorted sequence.
pub fn binary_search_first(a: &Vec<i32>, v: i32) -> (r: Option<usize>)
    requires
        sorted(a@),
    ensures
        r matches Some(i) ==> i < a@.len() && a@[i as int] == v && forall|k: int|
            0 <= k < i ==> a@[k] != v,
        r is None ==> forall|k: int| 0 <= k < a@.len() ==> a@[k] != v,
{
    let mut low: usize = 0;
    let mut high: usize = a.len();
    while low < high
        invariant
            low <= high <= a@.len(),
            sorted(a@),
            forall|k: int| 0 <= k < low ==> a@[k] < v,
            (exists|k: int| 0 <= k < a@.len() && a@[k] == v) ==> (exists|k: int|
                0 <= k < high && a@[k] == v),
        decreases high - low,
    {
        let mid = low + (high - low) / 2;
        if a[mid] == v {
            if mid == 0 || a[mid - 1] != v {
                return Some(mid);
            } else {
                high = mid;
            }
        } else if a[mid] < v {
            low = mid + 1;
        } else {
            high = mid;
        }
    }
    None
}

/// Binary search for the last occurrence of `v` in a sorted sequence.
pub fn binary_search_last(a: &Vec<i32>, v: i32) -> (r: Option<usize>)
    requires
        sorted(a@),
    ensures
        r matches Some(i) ==> i < a@.len() && a@[i as int] == v && forall|k: int|
            i < k < a@.len() ==> a@[k] != v,
        r is None ==> forall|k: int| 0 <= k < a@.len() ==> a@[k] != v,
{
    let mut low: usize = 0;
    let mut high: usize = a.len();
    while low < high
        invariant
            low <= high <= a@.len(),
            sorted(a@),
            forall|k: int| high <= k < a@.len() ==> a@[k] > v,
            (exists|k: int| 0 <= k < a@.len() && a@[k] == v) ==> (exists|k: int|
                low <= k < a@.len() && a@[k] == v),
        decreases high - low,
    {
        let mid = low + (high - low) / 2;
        if a[mid] == v {
            if mid == a.len() - 1 || a[mid + 1] != v {
                return Some(mid);
            } else {
                low = mid + 1;
            }
        } else if a[mid] < v {
            low = mid + 1;
        } else {
            high = mid;
        }
    }
    None
}

/// Binary search for the first element at least `v` in a sorted sequence.
pub fn binary_search_first_gte(a: &Vec<i32>, v: i32) -> (r: Option<usize>)
    requires
        sorted(a@),
    ensures
        r matches Some(i) ==> i < a@.len() && a@[i as int] >= v && forall|k: int|
            0 <= k < i ==> a@[k] < v,
        r is None ==> forall|k: int| 0 <= k < a@.len() ==> a@[k] < v,
{
    let mut low: usize = 0;
    let mut high: usize = a.len();
    while low < high
        invariant
            low <= high <= a@.len(),
            sorted(a@),
            forall|k: int| 0 <= k < low ==> a@[k] < v,
            (exists|k: int| 0 <= k < a@.len() && a@[k] >= v) ==> (exists|k: int|
                0 <= k < high && a@[k] >= v),
        decreases high - low,
    {
        let mid = low + (high - low) / 2;
        if a[mid] >= v {
            if mid == 0 || a[mid - 1] < v {
                return Some(mid);
            } else {
                high = mid;
            }
        } else {
            low = mid + 1;
        }
    }
    None
}

/// Binary search for the last element at most `v` in a sorted sequence.
pub fn binary_search_last_lte(a: &Vec<i32>, v: i32) -> (r: Option<usize>)
    requires
        sorted(a@),
    ensures
        r matches Some(i) ==> i < a@.len() && a@[i as int] <= v && forall|k: int|
            i < k < a@.len() ==> a@[k] > v,
        r is None ==> forall|k: int| 0 <= k < a@.len() ==> a@[k] > v,
{
    let mut low: usize = 0;
    let mut high: usize = a.len();
    while low < high
        invariant
            low <= high <= a@.len(),
            sorted(a@),
            forall|k: int| high <= k < a@.len() ==> a@[k] > v,
            (exists|k: int| 0 <= k < a@.len() && a@[k] <= v) ==> (exists|k: int|
                low <= k < a@.len() && a@[k] <= v),
        decreases high - low,
    {
        let mid = low + (high - low) / 2;
        if a[mid] <= v {
            if mid == a.len() - 1 || a[mid + 1] > v {
                return Some(mid);
            } else {
                low = mid + 1;
            }
        } else {
            high = mid;
        }
    }
    None
}

/// Binary search for `v` in a rotation of a strictly sorted sequence:
/// returns the index of `v` exactly when `v` occurs.
pub fn binary_search_cycled(a: &Vec<i32>, v: i32) -> (r: Option<usize>)
    requires
        cycled_sorted(a@),
    ensures
        r matches Some(i) ==> i < a@.len() && a@[i as int] == v,
        r is None ==> forall|k: int| 0 <= k < a@.len() ==> a@[k] != v,
{
    let ghost r = choose|r: int| cycled_sorted_at(a@, r);
    let mut low: usize = 0;
    let mut high: usize = a.len();
    while low < high
        invariant
            low <= high <= a@.len(),
            cycled_sorted_at(a@, r),
            forall|k: int| 0 <= k < a@.len() && a@[k] == v ==> low <= k < high,
        decreases high - low,
    {
        let mid = low + (high - low) / 2;
        let mid_val = a[mid];
        if mid_val == v {
            return Some(mid);
        } else if a[low] <= mid_val {
            // the run from low to mid is ascending: the rotation point is
            // not strictly between them
            proof {
                assert(r <= low || r > mid) by {
                    if low < r <= mid {
                        assert(a@[mid as int] < a@[low as int]);
                    }
                }
            }
            if mid_val > v && a[low] <= v {
                proof {
                    assert forall|k: int| mid < k < a@.len() implies a@[k] != v by {
                        if r <= low || k < r {
                            assert(a@[k] > a@[mid as int]);
                        } else {
                            assert(a@[k] < a@[low as int]);
                        }
                    }
                }
                high = mid;
            } else {
                proof {
                    assert forall|k: int| low <= k <= mid implies a@[k] != v by {
                        if k > low {
                            assert(a@[low as int] < a@[k]);
                        }
                        if k < mid {
                            assert(a@[k] < a@[mid as int]);
                        }
                    }
                }
                low = mid + 1;
            }
        } else {
            // the rotation point lies strictly between low and mid, so the
            // run from mid to the end of the window is ascending
            proof {
                assert(low < r <= mid) by {
                    if r <= low || r > mid {
                        assert(a@[low as int] < a@[mid as int]);
                    }
                }
            }
            if mid_val < v && a[high - 1] >= v {
                proof {
                    assert forall|k: int| 0 <= k <= mid implies a@[k] != v by {
                        if k >= r {
                            if k < mid {
                                assert(a@[k] < a@[mid as int]);
                            }
                        } else {
                            assert(a@[(high - 1) as int] < a@[k]);
                        }
                    }
                }
                low = mid + 1;
            } else {
                proof {
                    assert forall|k: int| mid < k < high implies a@[k] != v by {
                        assert(a@[k] > a@[mid as int]);
                        if k < high - 1 {
                            assert(a@[k] < a@[(high - 1) as int]);
                        }
                    }
                }
                high = mid;
            }
        }
    }
    None
}

} // verus!
