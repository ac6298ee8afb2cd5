//! Selection and sorting: what repeated heap construction on shrinking rests
//! of a region arrives at.

use crate::construct::{lemma_heapified, lemma_heapified_keeps_heap};
use crate::model::{ascending, heap_sorted, heapified, is_heap, selected, smallest_first};
use crate::order::strict_weak_order;
use crate::sift::{lemma_permutation_holds, lemma_root_is_least};
use vstd::prelude::*;

verus! {

/// Selection permutes the region, and under a total order its first `n`
/// positions then hold `n` smallest elements in ascending order.
pub proof fn lemma_selected<T>(s: Seq<T>, lt: spec_fn(T, T) -> bool, n: int)
    requires
        0 <= n <= s.len(),
    ensures
        selected(s, lt, n).len() == s.len(),
        selected(s, lt, n).to_multiset() == s.to_multiset(),
        strict_weak_order(lt) ==> smallest_first(selected(s, lt, n), lt, n),
    decreases n,
{
    if n > 0 {
        let k = n - 1;
        let t = selected(s, lt, k);
        lemma_selected(s, lt, k);
        let rest = t.skip(k);
        let heap = heapified(rest, lt);
        let r = t.take(k) + heap;
        lemma_heapified(rest, lt);
        assert(r.to_multiset() == t.to_multiset()) by {
            vstd::seq_lib::lemma_multiset_commutative(t.take(k), heap);
            vstd::seq_lib::lemma_multiset_commutative(t.take(k), rest);
            assert(t.take(k) + rest =~= t);
        }
        if strict_weak_order(lt) {
            assert forall|i: int, j: int| 0 <= i < n && i < j < r.len() implies !lt(
                #[trigger] r[j],
                #[trigger] r[i],
            ) by {
                if i == k {
                    // The root of the heap built on the rest is a minimum of it.
                    lemma_root_is_least(heap, lt, j - k);
                } else if k <= j {
                    // What stands at `j` now stood somewhere in the rest before.
                    lemma_permutation_holds(heap, rest, j - k);
                    let m = choose|m: int| 0 <= m < rest.len() && rest[m] == heap[j - k];
                    assert(r[j] == t[k + m]);
                }
            }
        }
    }
}

/// Selection settles the front for good: going on to select more elements
/// leaves the first `n` positions as they are.
pub proof fn lemma_selected_front_stays<T>(s: Seq<T>, lt: spec_fn(T, T) -> bool, n: int, m: int)
    requires
        0 <= n <= m <= s.len(),
    ensures
        selected(s, lt, m).take(n) == selected(s, lt, n).take(n),
    decreases m,
{
    if n < m {
        lemma_selected(s, lt, m - 1);
        lemma_selected_front_stays(s, lt, n, m - 1);
    }
}

/// The `n` smallest elements that selection brings to the front are the
/// first `n` elements of the sorted region, in the same order.
pub proof fn lemma_selected_is_front_of_sorted<T>(s: Seq<T>, lt: spec_fn(T, T) -> bool, n: int)
    requires
        0 <= n <= s.len(),
    ensures
        selected(s, lt, n).take(n) == heap_sorted(s, lt).take(n),
{
    lemma_selected_front_stays(s, lt, n, s.len() as int);
}

/// Heap sort permutes the region, and under a total order the region is then
/// in ascending order.
pub proof fn lemma_heap_sorted<T>(s: Seq<T>, lt: spec_fn(T, T) -> bool)
    ensures
        heap_sorted(s, lt).len() == s.len(),
        heap_sorted(s, lt).to_multiset() == s.to_multiset(),
        strict_weak_order(lt) ==> ascending(heap_sorted(s, lt), lt),
{
    lemma_selected(s, lt, s.len() as int);
}

/// Selection leaves a region in ascending order as it is.
pub proof fn lemma_selected_keeps_ascending<T>(s: Seq<T>, lt: spec_fn(T, T) -> bool, n: int)
    requires
        ascending(s, lt),
        0 <= n <= s.len(),
    ensures
        selected(s, lt, n) == s,
    decreases n,
{
    if n > 0 {
        let k = n - 1;
        lemma_selected_keeps_ascending(s, lt, k);
        // A region in ascending order is a heap, and so is every rest of it.
        assert(is_heap(s.skip(k), lt));
        lemma_heapified_keeps_heap(s.skip(k), lt);
    }
}

/// Sorting twice gives what sorting once gives: under a total order, heap
/// sort leaves its own result as it is.
pub proof fn lemma_heap_sort_idempotent<T>(s: Seq<T>, lt: spec_fn(T, T) -> bool)
    requires
        strict_weak_order(lt),
    ensures
        heap_sorted(heap_sorted(s, lt), lt) == heap_sorted(s, lt),
{
    lemma_heap_sorted(s, lt);
    lemma_selected_keeps_ascending(heap_sorted(s, lt), lt, s.len() as int);
}

} // verus!
