//! Heap construction: repairing the positions from the last parent up to the
//! root yields a heap, and leaves a heap as it is.

use crate::model::{heapified, heapified_below, is_heap, sifted_up};
use crate::order::strict_weak_order;
use crate::sift::{heap_within, lemma_sifted_up_permutes, lemma_sifted_up_restores};
use vstd::prelude::*;

verus! {

/// Repairing positions one after the other permutes the region.
pub proof fn lemma_heapified_below_permutes<T>(s: Seq<T>, lt: spec_fn(T, T) -> bool, k: int)
    ensures
        heapified_below(s, lt, k).len() == s.len(),
        heapified_below(s, lt, k).to_multiset() == s.to_multiset(),
    decreases k,
{
    if k > 0 {
        let t = sifted_up(s, lt, s.len() as int, k - 1);
        lemma_sifted_up_permutes(s, lt, s.len() as int, k - 1);
        lemma_heapified_below_permutes(t, lt, k - 1);
    }
}

/// Where every position from `k` on is the root of a heap, repairing the
/// positions below `k` makes the whole region a heap.
pub proof fn lemma_heapified_below_is_heap<T>(s: Seq<T>, lt: spec_fn(T, T) -> bool, k: int)
    requires
        strict_weak_order(lt),
        0 <= k,
        heap_within(s, lt, k, s.len() as int),
    ensures
        is_heap(heapified_below(s, lt, k), lt),
    decreases k,
{
    let len = s.len() as int;
    if k > 0 {
        lemma_sifted_up_restores(s, lt, k - 1, len, k - 1);
        lemma_sifted_up_permutes(s, lt, len, k - 1);
        lemma_heapified_below_is_heap(sifted_up(s, lt, len, k - 1), lt, k - 1);
    }
}

/// Heap construction permutes the region and yields a heap.
pub proof fn lemma_heapified<T>(s: Seq<T>, lt: spec_fn(T, T) -> bool)
    ensures
        heapified(s, lt).len() == s.len(),
        heapified(s, lt).to_multiset() == s.to_multiset(),
        strict_weak_order(lt) ==> is_heap(heapified(s, lt), lt),
{
    lemma_heapified_below_permutes(s, lt, s.len() as int / 2);
    if strict_weak_order(lt) {
        lemma_heapified_below_is_heap(s, lt, s.len() as int / 2);
    }
}

/// Heap construction leaves a heap as it is.
pub proof fn lemma_heapified_keeps_heap<T>(s: Seq<T>, lt: spec_fn(T, T) -> bool)
    requires
        is_heap(s, lt),
    ensures
        heapified(s, lt) == s,
{
    lemma_heapified_below_keeps_heap(s, lt, s.len() as int / 2);
}

proof fn lemma_heapified_below_keeps_heap<T>(s: Seq<T>, lt: spec_fn(T, T) -> bool, k: int)
    requires
        is_heap(s, lt),
    ensures
        heapified_below(s, lt, k) == s,
    decreases k,
{
    if k > 0 {
        // No child of a position in a heap orders before it, so nothing moves.
        assert(sifted_up(s, lt, s.len() as int, k - 1) == s);
        lemma_heapified_below_keeps_heap(s, lt, k - 1);
    }
}

} // verus!
