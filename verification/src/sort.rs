//! Sorting routines and selection of the n-th smallest element. Every
//! routine leaves the same elements behind (as a multiset) and the sorts
//! leave them in non-decreasing order.

use vstd::prelude::*;

use vstd::seq_lib::lemma_multiset_commutative;

use crate::sorted;

verus! {

/// Exchanges the elements at `i` and `j`.
fn swap_at(a: &mut Vec<i32>, i: usize, j: usize)
    requires
        i < old(a)@.len(),
        j < old(a)@.len(),
    ensures
        final(a)@ == old(a)@.update(i as int, old(a)@[j as int]).update(
            j as int,
            old(a)@[i as int],
        ),
        final(a)@.to_multiset() == old(a)@.to_multiset(),
        final(a)@.len() == old(a)@.len(),
{
    let x = a[i];
    let y = a[j];
    a[i] = y;
    a[j] = x;
    proof {
        lemma_swap_multiset(old(a)@, i as int, j as int);
    }
}

/// Exchanging two positions of a sequence keeps its multiset.
proof fn lemma_swap_multiset(s: Seq<i32>, i: int, j: int)
    requires
        0 <= i < s.len(),
        0 <= j < s.len(),
    ensures
        s.update(i, s[j]).update(j, s[i]).to_multiset() == s.to_multiset(),
{
    broadcast use vstd::seq_lib::group_to_multiset_ensures;
    broadcast use vstd::multiset::group_multiset_axioms;

    if i == j {
        assert(s.update(i, s[j]).update(j, s[i]) =~= s);
    } else {
        let s1 = s.update(i, s[j]);
        assert(s1[j] == s[j] && s1[i] == s[j]);
        assert(s1.update(j, s[i]).to_multiset() =~= s.to_multiset());
    }
}

/// Exchanging two positions inside a window keeps the window's multiset.
proof fn lemma_swap_in_window(s: Seq<i32>, lo: int, hi: int, i: int, j: int)
    requires
        0 <= lo <= i < hi <= s.len(),
        lo <= j < hi,
    ensures
        s.update(i, s[j]).update(j, s[i]).subrange(lo, hi).to_multiset() == s.subrange(
            lo,
            hi,
        ).to_multiset(),
{
    let t = s.subrange(lo, hi);
    assert(s.update(i, s[j]).update(j, s[i]).subrange(lo, hi) =~= t.update(i - lo, t[j - lo]).update(
        j - lo,
        t[i - lo],
    ));
    lemma_swap_multiset(t, i - lo, j - lo);
}

/// Two equally long sequences that agree outside a window and whose
/// windows hold the same multiset hold the same multiset on any wider
/// window too.
proof fn lemma_ms_window(s1: Seq<i32>, s2: Seq<i32>, lo: int, hi: int, lo2: int, hi2: int)
    requires
        s1.len() == s2.len(),
        0 <= lo <= lo2 <= hi2 <= hi <= s1.len(),
        forall|k: int| 0 <= k < lo2 ==> s1[k] == s2[k],
        forall|k: int| hi2 <= k < s1.len() ==> s1[k] == s2[k],
        s1.subrange(lo2, hi2).to_multiset() == s2.subrange(lo2, hi2).to_multiset(),
    ensures
        s1.subrange(lo, hi).to_multiset() == s2.subrange(lo, hi).to_multiset(),
{
    assert(s1.subrange(lo, hi) =~= s1.subrange(lo, lo2) + s1.subrange(lo2, hi2) + s1.subrange(
        hi2,
        hi,
    ));
    assert(s2.subrange(lo, hi) =~= s2.subrange(lo, lo2) + s2.subrange(lo2, hi2) + s2.subrange(
        hi2,
        hi,
    ));
    assert(s1.subrange(lo, lo2) =~= s2.subrange(lo, lo2));
    assert(s1.subrange(hi2, hi) =~= s2.subrange(hi2, hi));
    lemma_multiset_commutative(s1.subrange(lo, lo2) + s1.subrange(lo2, hi2), s1.subrange(hi2, hi));
    lemma_multiset_commutative(s1.subrange(lo, lo2), s1.subrange(lo2, hi2));
    lemma_multiset_commutative(s2.subrange(lo, lo2) + s2.subrange(lo2, hi2), s2.subrange(hi2, hi));
    lemma_multiset_commutative(s2.subrange(lo, lo2), s2.subrange(lo2, hi2));
}

/// Every element of a sequence occurs in any sequence with the same
/// multiset.
proof fn lemma_ms_contains(s1: Seq<i32>, s2: Seq<i32>)
    requires
        s1.to_multiset() == s2.to_multiset(),
    ensures
        forall|k: int| 0 <= k < s2.len() ==> s1.contains(#[trigger] s2[k]),
{
    broadcast use vstd::seq_lib::group_to_multiset_ensures;

    assert forall|k: int| 0 <= k < s2.len() implies s1.contains(s2[k]) by {
        assert(s2.contains(s2[k]));
        assert(s1.to_multiset().count(s2[k]) > 0);
    }
}

/// Bubble sort: repeatedly bubbles the largest remaining element to the
/// end, stopping early once a pass makes no exchange.
pub fn bubble_sort(a: &mut Vec<i32>)
    ensures
        sorted(final(a)@),
        final(a)@.to_multiset() == old(a)@.to_multiset(),
{
    let n = a.len();
    if n <= 1 {
        return;
    }
    let mut i: usize = 0;
    while i < n
        invariant
            n == a@.len(),
            i <= n,
            a@.to_multiset() == old(a)@.to_multiset(),
            forall|p: int, q: int| n - i <= p < q < n ==> a@[p] <= a@[q],
            forall|p: int, q: int| 0 <= p < n - i && n - i <= q < n ==> a@[p] <= a@[q],
        decreases n - i,
    {
        let mut swapped = false;
        let mut j: usize = 0;
        while j < n - i - 1
            invariant
                n == a@.len(),
                i < n,
                j <= n - i - 1,
                a@.to_multiset() == old(a)@.to_multiset(),
                forall|p: int, q: int| n - i <= p < q < n ==> a@[p] <= a@[q],
                forall|p: int, q: int| 0 <= p < n - i && n - i <= q < n ==> a@[p] <= a@[q],
                forall|p: int| 0 <= p < j ==> a@[p] <= a@[j as int],
                !swapped ==> forall|p: int, q: int| 0 <= p < q <= j ==> a@[p] <= a@[q],
            decreases n - i - 1 - j,
        {
            if a[j] > a[j + 1] {
                swap_at(a, j, j + 1);
                swapped = true;
            }
            j += 1;
        }
        if !swapped {
            // no pass will change anything further: already in order
            return;
        }
        i += 1;
    }
}

/// Insertion sort: grows a sorted prefix, sliding each next element left
/// to its place.
pub fn insertion_sort(a: &mut Vec<i32>)
    ensures
        sorted(final(a)@),
        final(a)@.to_multiset() == old(a)@.to_multiset(),
{
    let n = a.len();
    if n <= 1 {
        return;
    }
    let mut i: usize = 1;
    while i < n
        invariant
            n == a@.len(),
            1 <= i <= n,
            a@.to_multiset() == old(a)@.to_multiset(),
            forall|p: int, q: int| 0 <= p < q < i ==> a@[p] <= a@[q],
        decreases n - i,
    {
        let x = a[i];
        let ghost s0 = a@;
        proof {
            assert(s0.update(i as int, x) =~= s0);
        }
        let mut j: usize = i;
        while j > 0 && a[j - 1] > x
            invariant
                n == a@.len(),
                j <= i < n,
                a@.update(j as int, x).to_multiset() == s0.to_multiset(),
                forall|p: int, q: int|
                    0 <= p < q <= i && p != j && q != j ==> a@[p] <= a@[q],
                forall|p: int| j < p <= i ==> a@[p] > x,
            decreases j,
        {
            let ghost cur = a@;
            a[j] = a[j - 1];
            proof {
                let s = cur.update(j as int, x);
                lemma_swap_multiset(s, j - 1, j as int);
                assert(a@.update(j - 1, x) =~= s.update(j - 1, s[j as int]).update(
                    j as int,
                    s[j - 1],
                ));
            }
            j -= 1;
        }
        a[j] = x;
        i += 1;
    }
}

/// Selection sort: finds the least remaining element and moves it to the
/// front of the unsorted region.
pub fn selection_sort(a: &mut Vec<i32>)
    ensures
        sorted(final(a)@),
        final(a)@.to_multiset() == old(a)@.to_multiset(),
{
    let n = a.len();
    if n <= 1 {
        return;
    }
    let mut i: usize = 0;
    while i < n
        invariant
            n == a@.len(),
            i <= n,
            a@.to_multiset() == old(a)@.to_multiset(),
            forall|p: int, q: int| 0 <= p < q < i ==> a@[p] <= a@[q],
            forall|p: int, q: int| 0 <= p < i <= q < n ==> a@[p] <= a@[q],
        decreases n - i,
    {
        let mut min = i;
        let mut j = i;
        while j < n
            invariant
                n == a@.len(),
                i <= min < n,
                i <= j <= n,
                forall|k: int| i <= k < j ==> a@[min as int] <= a@[k],
            decreases n - j,
        {
            if a[j] < a[min] {
                min = j;
            }
            j += 1;
        }
        if min != i {
            swap_at(a, min, i);
        }
        i += 1;
    }
}

/// Splits the window `[lo, hi)` around its last element: afterwards the
/// pivot sits at the returned index, everything before it in the window
/// is smaller, everything after it at least as large. The rest of the
/// sequence is untouched.
fn partition(a: &mut Vec<i32>, lo: usize, hi: usize) -> (p: usize)
    requires
        lo < hi <= old(a)@.len(),
    ensures
        lo <= p < hi,
        final(a)@.len() == old(a)@.len(),
        forall|k: int| 0 <= k < lo ==> final(a)@[k] == old(a)@[k],
        forall|k: int| hi <= k < old(a)@.len() ==> final(a)@[k] == old(a)@[k],
        final(a)@.subrange(lo as int, hi as int).to_multiset() == old(a)@.subrange(
            lo as int,
            hi as int,
        ).to_multiset(),
        forall|k: int| lo <= k < p ==> final(a)@[k] < final(a)@[p as int],
        forall|k: int| p < k < hi ==> final(a)@[k] >= final(a)@[p as int],
{
    let pivot = a[hi - 1];
    let mut i = lo;
    let mut j = lo;
    while j < hi - 1
        invariant
            lo <= i <= j <= hi - 1,
            lo < hi <= a@.len(),
            a@.len() == old(a)@.len(),
            a@[hi - 1] == pivot,
            forall|k: int| 0 <= k < lo ==> a@[k] == old(a)@[k],
            forall|k: int| hi <= k < old(a)@.len() ==> a@[k] == old(a)@[k],
            a@.subrange(lo as int, hi as int).to_multiset() == old(a)@.subrange(
                lo as int,
                hi as int,
            ).to_multiset(),
            forall|k: int| lo <= k < i ==> a@[k] < pivot,
            forall|k: int| i <= k < j ==> a@[k] >= pivot,
        decreases hi - 1 - j,
    {
        if a[j] < pivot {
            let ghost prev = a@;
            swap_at(a, i, j);
            proof {
                lemma_swap_in_window(prev, lo as int, hi as int, i as int, j as int);
            }
            i += 1;
        }
        j += 1;
    }
    let ghost prev = a@;
    swap_at(a, i, hi - 1);
    proof {
        lemma_swap_in_window(prev, lo as int, hi as int, i as int, hi - 1);
    }
    i
}

/// Quicksort on the window `[lo, hi)`: partitions around a pivot and
/// recurses on both sides.
fn quick_sort_part(a: &mut Vec<i32>, lo: usize, hi: usize)
    requires
        lo <= hi <= old(a)@.len(),
    ensures
        final(a)@.len() == old(a)@.len(),
        forall|k: int| 0 <= k < lo ==> final(a)@[k] == old(a)@[k],
        forall|k: int| hi <= k < old(a)@.len() ==> final(a)@[k] == old(a)@[k],
        final(a)@.subrange(lo as int, hi as int).to_multiset() == old(a)@.subrange(
            lo as int,
            hi as int,
        ).to_multiset(),
        forall|p: int, q: int| lo <= p < q < hi ==> final(a)@[p] <= final(a)@[q],
    decreases hi - lo,
{
    if hi - lo <= 1 {
        return;
    }
    let p = partition(a, lo, hi);
    let ghost s1 = a@;
    quick_sort_part(a, lo, p);
    let ghost s2 = a@;
    quick_sort_part(a, p + 1, hi);
    proof {
        let s3 = a@;
        lemma_ms_window(s1, s2, lo as int, hi as int, lo as int, p as int);
        lemma_ms_window(s2, s3, lo as int, hi as int, p as int + 1, hi as int);
        // the left window was permuted but keeps every element below the
        // pivot; the right window keeps every element at or above it
        lemma_ms_contains(s1.subrange(lo as int, p as int), s2.subrange(lo as int, p as int));
        lemma_ms_contains(s2.subrange(p as int + 1, hi as int), s3.subrange(p as int + 1, hi as int));
        assert forall|k: int| lo <= k < p implies s3[k] < s3[p as int] by {
            assert(s2.subrange(lo as int, p as int)[k - lo] == s2[k]);
            assert(s1.subrange(lo as int, p as int).contains(s2[k]));
            assert(s3[k] == s2[k]);
        }
        assert forall|k: int| p < k < hi implies s3[k] >= s3[p as int] by {
            assert(s3.subrange(p as int + 1, hi as int)[k - (p + 1)] == s3[k]);
            assert(s2.subrange(p as int + 1, hi as int).contains(s3[k]));
        }
    }
}

/// Quicksort over the whole sequence.
pub fn quick_sort(a: &mut Vec<i32>)
    ensures
        sorted(final(a)@),
        final(a)@.to_multiset() == old(a)@.to_multiset(),
{
    let n = a.len();
    quick_sort_part(a, 0, n);
    proof {
        assert(a@.subrange(0, n as int) =~= a@);
        assert(old(a)@.subrange(0, n as int) =~= old(a)@);
    }
}

/// Quickselect on the window `[lo, hi)`: absent when `n` is zero or
/// exceeds the window; otherwise the `n`-th smallest element of the
/// window, which afterwards sits `n - 1` places into the window with the
/// smaller elements before it and the larger ones after it.
fn smallest_in(a: &mut Vec<i32>, lo: usize, hi: usize, n: usize) -> (r: Option<i32>)
    requires
        lo <= hi <= old(a)@.len(),
    ensures
        final(a)@.len() == old(a)@.len(),
        forall|k: int| 0 <= k < lo ==> final(a)@[k] == old(a)@[k],
        forall|k: int| hi <= k < old(a)@.len() ==> final(a)@[k] == old(a)@[k],
        final(a)@.subrange(lo as int, hi as int).to_multiset() == old(a)@.subrange(
            lo as int,
            hi as int,
        ).to_multiset(),
        r is None <==> (n == 0 || n > hi - lo),
        r is None ==> final(a)@ == old(a)@,
        r matches Some(x) ==> {
            &&& final(a)@[lo + n - 1] == x
            &&& forall|k: int| lo <= k < lo + n - 1 ==> final(a)@[k] <= x
            &&& forall|k: int| lo + n - 1 <= k < hi ==> final(a)@[k] >= x
        },
    decreases hi - lo,
{
    if n == 0 || hi - lo < n {
        return None;
    }
    let p = partition(a, lo, hi);
    if p - lo == n - 1 {
        Some(a[p])
    } else if p - lo < n - 1 {
        let ghost s1 = a@;
        let r = smallest_in(a, p + 1, hi, n - (p - lo) - 1);
        proof {
            let s2 = a@;
            lemma_ms_window(s1, s2, lo as int, hi as int, p as int + 1, hi as int);
            lemma_ms_contains(s1.subrange(p as int + 1, hi as int), s2.subrange(p as int + 1, hi as int));
            assert forall|k: int| p as int + 1 <= k < hi implies s2[k] >= s2[p as int] by {
                assert(s2.subrange(p as int + 1, hi as int)[k - (p + 1)] == s2[k]);
            }
        }
        r
    } else {
        let ghost s1 = a@;
        let r = smallest_in(a, lo, p, n);
        proof {
            let s2 = a@;
            lemma_ms_window(s1, s2, lo as int, hi as int, lo as int, p as int);
            lemma_ms_contains(s1.subrange(lo as int, p as int), s2.subrange(lo as int, p as int));
            assert forall|k: int| lo <= k < p implies s2[k] < s2[p as int] by {
                assert(s2.subrange(lo as int, p as int)[k - lo] == s2[k]);
            }
        }
        r
    }
}

/// The `n`-th smallest element (counting from 1), or absent when `n` is
/// zero or exceeds the length. The sequence is reordered but keeps the
/// same elements.
pub fn smallest_n(a: &mut Vec<i32>, n: usize) -> (r: Option<i32>)
    ensures
        final(a)@.len() == old(a)@.len(),
        final(a)@.to_multiset() == old(a)@.to_multiset(),
        r is None <==> (n == 0 || n > old(a)@.len()),
        r is None ==> final(a)@ == old(a)@,
        r matches Some(x) ==> {
            &&& final(a)@[n - 1] == x
            &&& forall|k: int| 0 <= k < n - 1 ==> final(a)@[k] <= x
            &&& forall|k: int| n - 1 <= k < final(a)@.len() ==> final(a)@[k] >= x
        },
{
    let len = a.len();
    let r = smallest_in(a, 0, len, n);
    proof {
        assert(a@.subrange(0, len as int) =~= a@);
        assert(old(a)@.subrange(0, len as int) =~= old(a)@);
    }
    r
}

} // verus!
