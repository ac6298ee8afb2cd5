//! Binary-heap operations on a slice, in place.
//!
//! A region is a slice that the caller owns. Position 0 is the root; the
//! parent of position `i` is `(i - 1) / 2` and its children are `2 * i + 1` and
//! `2 * i + 2`. A region is a heap when no element orders before its parent,
//! so that the root is a minimum.
//!
//! The `_by` functions take the order as a comparison function. Their
//! contracts speak of every relation `lt` that the function decides (see
//! [`order::decides`]). The other functions use the natural order of `T`.

pub mod construct;
pub mod model;
pub mod order;
pub mod select;
pub mod sift;

use crate::construct::lemma_heapified;
use crate::model::{
    ascending, heap_sorted, heapified, heapified_below, idx, is_heap, last_is_least, selected,
    sifted_down, sifted_up, smallest_first, swapped,
};
use crate::order::{callable_on, decides, lawful_order, natural_lt, strict_weak_order};
use crate::select::{lemma_heap_sorted, lemma_selected, lemma_selected_is_front_of_sorted};
use crate::sift::{
    heap_but_below, lemma_appended_is_heap_but_above, lemma_permutation_holds,
    lemma_root_is_least, lemma_sifted_down_restores, lemma_sifted_up_restores,
    lemma_swapped_permutes,
};
use std::cmp::Ordering;
use vstd::prelude::*;

verus! {

/// `<[T]>::swap` of the standard library: exchanges the elements at the two
/// positions and leaves the others alone. It panics when a position is out of
/// bounds, so both are required to be in bounds.
pub assume_specification<E>[ <[E]>::swap ](slice: &mut [E], a: usize, b: usize)
    requires
        a < old(slice)@.len(),
        b < old(slice)@.len(),
    ensures
        final(slice)@ == old(slice)@.update(a as int, old(slice)@[b as int]).update(
            b as int,
            old(slice)@[a as int],
        ),
;

/// Moves the element at `pos` toward the root, no further than `start`.
fn siftdown_by<T, F>(heap: &mut [T], start: usize, mut pos: usize, mut f: F) where
    F: FnMut(&T, &T) -> Ordering,

    requires
        pos < old(heap)@.len(),
        callable_on(f, old(heap)@),
    ensures
        final(heap)@.len() == old(heap)@.len(),
        final(heap)@.to_multiset() == old(heap)@.to_multiset(),
        forall|lt: spec_fn(T, T) -> bool| #[trigger]
            decides(f, lt) ==> final(heap)@ == sifted_down(
                old(heap)@,
                lt,
                idx(start),
                idx(pos),
            ),
{
    let ghost first = pos;
    let ghost given = f;
    while start < pos
        invariant_except_break
            forall|lt: spec_fn(T, T) -> bool| #[trigger]
                decides(f, lt) ==> sifted_down(heap@, lt, idx(start), idx(pos)) == sifted_down(
                    old(heap)@,
                    lt,
                    idx(start),
                    idx(first),
                ),
        invariant
            pos < heap@.len(),
            heap@.len() == old(heap)@.len(),
            heap@.to_multiset() == old(heap)@.to_multiset(),
            callable_on(f, heap@),
            f == given,
        ensures
            forall|lt: spec_fn(T, T) -> bool| #[trigger]
                decides(f, lt) ==> heap@ == sifted_down(old(heap)@, lt, idx(start), idx(first)),
        decreases pos,
    {
        let p = (pos - 1) / 2;
        let ghost before = heap@;
        let order = f(&heap[pos], &heap[p]);
        match order {
            Ordering::Less => {
                heap.swap(p, pos);
                proof {
                    assert(heap@ =~= swapped(before, idx(pos), idx(p)));
                    lemma_swapped_permutes(before, idx(pos), idx(p));
                }
                pos = p;
            },
            _ => {
                break ;
            },
        }
    }
}

/// Moves the element at `pos` toward the leaves, within the first `end`
/// positions.
fn siftup_by<T, F>(heap: &mut [T], end: usize, mut pos: usize, mut f: F) where
    F: FnMut(&T, &T) -> Ordering,

    requires
        end <= old(heap)@.len(),
        callable_on(f, old(heap)@),
    ensures
        final(heap)@.len() == old(heap)@.len(),
        final(heap)@.to_multiset() == old(heap)@.to_multiset(),
        forall|i: int| end <= i < old(heap)@.len() ==> final(heap)@[i] == old(heap)@[i],
        forall|lt: spec_fn(T, T) -> bool| #[trigger]
            decides(f, lt) ==> final(heap)@ == sifted_up(old(heap)@, lt, idx(end), idx(pos)),
{
    let ghost first = pos;
    let ghost given = f;
    while pos < end / 2
        invariant_except_break
            forall|lt: spec_fn(T, T) -> bool| #[trigger]
                decides(f, lt) ==> sifted_up(heap@, lt, idx(end), idx(pos)) == sifted_up(
                    old(heap)@,
                    lt,
                    idx(end),
                    idx(first),
                ),
        invariant
            end <= heap@.len(),
            heap@.len() == old(heap)@.len(),
            heap@.to_multiset() == old(heap)@.to_multiset(),
            forall|i: int| end <= i < heap@.len() ==> heap@[i] == old(heap)@[i],
            callable_on(f, heap@),
            f == given,
        ensures
            forall|lt: spec_fn(T, T) -> bool| #[trigger]
                decides(f, lt) ==> heap@ == sifted_up(old(heap)@, lt, idx(end), idx(first)),
        decreases end - pos,
    {
        let ghost before = heap@;
        // The better of the children below `end`; the left one wins a tie.
        let mut child = 2 * pos + 1;
        let right = child + 1;
        if right < end {
            let order = f(&heap[right], &heap[child]);
            match order {
                Ordering::Less => {
                    child = right;
                },
                _ => {},
            }
        }
        let order = f(&heap[child], &heap[pos]);
        match order {
            Ordering::Less => {
                heap.swap(child, pos);
                proof {
                    assert(heap@ =~= swapped(before, idx(pos), idx(child)));
                    lemma_swapped_permutes(before, idx(pos), idx(child));
                }
                pos = child;
            },
            _ => {
                break ;
            },
        }
    }
}

/// Extends the heap by the element that the caller has put at the end of the
/// region: the last element is moved toward the root until it no longer
/// orders before its parent.
///
/// Where the region without its last element was a heap under a total order,
/// the whole region is a heap afterwards.
pub fn heap_push_by<T, F>(heap: &mut [T], f: F) where F: FnMut(&T, &T) -> Ordering
    requires
        old(heap)@.len() >= 1,
        callable_on(f, old(heap)@),
    ensures
        final(heap)@.len() == old(heap)@.len(),
        final(heap)@.to_multiset() == old(heap)@.to_multiset(),
        forall|lt: spec_fn(T, T) -> bool| #[trigger]
            decides(f, lt) ==> final(heap)@ == sifted_down(
                old(heap)@,
                lt,
                0,
                old(heap)@.len() - 1,
            ),
        forall|lt: spec_fn(T, T) -> bool|
            #[trigger] decides(f, lt) && strict_weak_order(lt) && is_heap(
                old(heap)@.drop_last(),
                lt,
            ) ==> is_heap(final(heap)@, lt),
{
    siftdown_by(heap, 0, heap.len() - 1, f);
    proof {
        assert forall|lt: spec_fn(T, T) -> bool|
            #[trigger] decides(f, lt) && strict_weak_order(lt) && is_heap(
                old(heap)@.drop_last(),
                lt,
            ) implies is_heap(heap@, lt) by {
            lemma_appended_is_heap_but_above(old(heap)@, lt);
            lemma_sifted_down_restores(old(heap)@, lt, old(heap)@.len() - 1);
        }
    }
}

/// Extends the heap by the element that the caller has put at the end of the
/// region, in the natural order of `T`, so that the root is a minimum.
pub fn heap_push<T: Ord>(heap: &mut [T])
    requires
        old(heap)@.len() >= 1,
        lawful_order::<T>(),
    ensures
        final(heap)@ == sifted_down(old(heap)@, natural_lt::<T>(), 0, old(heap)@.len() - 1),
        final(heap)@.len() == old(heap)@.len(),
        final(heap)@.to_multiset() == old(heap)@.to_multiset(),
        is_heap(old(heap)@.drop_last(), natural_lt::<T>()) ==> is_heap(
            final(heap)@,
            natural_lt::<T>(),
        ),
{
    let f = |a: &T, b: &T| -> (o: Ordering)
        ensures
            o == Ordering::Less <==> natural_lt::<T>()(*a, *b),
        { a.cmp(b) };
    proof {
        assert(decides(f, natural_lt::<T>()));
    }
    heap_push_by(heap, f);
}

/// Takes the root out of the heap: the root and the last element are
/// exchanged, and the new root is moved toward the leaves within the region
/// without its last position. The caller may then shorten the region by one.
///
/// Where the region was a heap under a total order, the region without its
/// last position is a heap afterwards, and the last position holds a minimum
/// of the whole region.
pub fn heap_pop_by<T, F>(heap: &mut [T], f: F) where F: FnMut(&T, &T) -> Ordering
    requires
        old(heap)@.len() >= 1,
        callable_on(f, old(heap)@),
    ensures
        final(heap)@.len() == old(heap)@.len(),
        final(heap)@.to_multiset() == old(heap)@.to_multiset(),
        final(heap)@.last() == old(heap)@[0],
        forall|lt: spec_fn(T, T) -> bool| #[trigger]
            decides(f, lt) ==> final(heap)@ == sifted_up(
                swapped(old(heap)@, 0, old(heap)@.len() - 1),
                lt,
                old(heap)@.len() - 1,
                0,
            ),
        forall|lt: spec_fn(T, T) -> bool|
            #[trigger] decides(f, lt) && strict_weak_order(lt) && is_heap(old(heap)@, lt)
                ==> is_heap(final(heap)@.drop_last(), lt) && last_is_least(final(heap)@, lt),
{
    let len = heap.len();
    heap.swap(0, len - 1);
    let ghost exchanged = heap@;
    proof {
        lemma_swapped_permutes(old(heap)@, 0, len - 1);
    }
    siftup_by(heap, len - 1, 0, f);
    proof {
        assert forall|lt: spec_fn(T, T) -> bool|
            #[trigger] decides(f, lt) && strict_weak_order(lt) && is_heap(
                old(heap)@,
                lt,
            ) implies is_heap(heap@.drop_last(), lt) && last_is_least(heap@, lt) by {
            // With the old root out of the way, only the children of the new
            // root may order before their parent.
            assert(heap_but_below(exchanged, lt, 0, len - 1, 0));
            lemma_sifted_up_restores(exchanged, lt, 0, len - 1, 0);
            assert(is_heap(heap@.drop_last(), lt));
            // Every element stood in the heap before, where the root was a
            // minimum.
            assert forall|i: int| 0 <= i < heap@.len() implies !lt(
                #[trigger] heap@[i],
                heap@.last(),
            ) by {
                lemma_permutation_holds(heap@, old(heap)@, i);
                let k = choose|k: int| 0 <= k < old(heap)@.len() && old(heap)@[k] == heap@[i];
                lemma_root_is_least(old(heap)@, lt, k);
            }
        }
    }
}

/// Takes the root, a minimum in the natural order of `T`, out of the heap and
/// puts it at the end of the region.
pub fn heap_pop<T: Ord>(heap: &mut [T])
    requires
        old(heap)@.len() >= 1,
        lawful_order::<T>(),
    ensures
        final(heap)@ == sifted_up(
            swapped(old(heap)@, 0, old(heap)@.len() - 1),
            natural_lt::<T>(),
            old(heap)@.len() - 1,
            0,
        ),
        final(heap)@.len() == old(heap)@.len(),
        final(heap)@.to_multiset() == old(heap)@.to_multiset(),
        final(heap)@.last() == old(heap)@[0],
        is_heap(old(heap)@, natural_lt::<T>()) ==> is_heap(
            final(heap)@.drop_last(),
            natural_lt::<T>(),
        ) && last_is_least(final(heap)@, natural_lt::<T>()),
{
    let f = |a: &T, b: &T| -> (o: Ordering)
        ensures
            o == Ordering::Less <==> natural_lt::<T>()(*a, *b),
        { a.cmp(b) };
    proof {
        assert(decides(f, natural_lt::<T>()));
    }
    heap_pop_by(heap, f)
}

/// Brings the `n` smallest elements of the region, in the natural order of
/// `T`, to its front and returns them, or returns `None` when the region has
/// fewer than `n` elements.
///
/// For each of the first `n` positions in turn, heap construction on the rest
/// of the region from that position on brings a minimum of that rest to the
/// position. What is returned is the first `n` elements of the sorted region;
/// the elements behind them are in no particular order. In the `None` case
/// nothing is promised of the arrangement of the region.
pub fn n_smallest<T: Ord>(heap: &mut [T], n: usize) -> (front: Option<&[T]>)
    requires
        lawful_order::<T>(),
    ensures
        front is None <==> n > old(heap)@.len(),
        final(heap)@.len() == old(heap)@.len(),
        final(heap)@.to_multiset() == old(heap)@.to_multiset(),
        front matches Some(smallest) ==> smallest@ == final(heap)@.take(idx(n)),
        front matches Some(smallest) ==> smallest@ == heap_sorted(
            old(heap)@,
            natural_lt::<T>(),
        ).take(idx(n)),
        front is Some ==> final(heap)@ == selected(old(heap)@, natural_lt::<T>(), idx(n)),
        front is Some ==> smallest_first(final(heap)@, natural_lt::<T>(), idx(n)),
{
    let len = heap.len();
    if len < n {
        None
    } else {
        let mut i: usize = 0;
        while i < n
            invariant
                lawful_order::<T>(),
                i <= n <= len,
                heap@.len() == len,
                heap@.len() == old(heap)@.len(),
                heap@ == selected(old(heap)@, natural_lt::<T>(), idx(i)),
            decreases n - i,
        {
            let (_, rest) = heap.split_at_mut(i);
            heapify(rest);
            i = i + 1;
        }
        proof {
            lemma_selected(old(heap)@, natural_lt::<T>(), idx(n));
            lemma_selected_is_front_of_sorted(old(heap)@, natural_lt::<T>(), idx(n));
        }
        Some(&heap[0..n])
    }
}

/// Makes a heap of an arbitrary region, in the natural order of `T`: every
/// position that has a child is repaired toward the leaves, from the last
/// such position up to the root.
pub fn heapify<T: Ord>(heap: &mut [T])
    requires
        lawful_order::<T>(),
    ensures
        final(heap)@ == heapified(old(heap)@, natural_lt::<T>()),
        final(heap)@.len() == old(heap)@.len(),
        final(heap)@.to_multiset() == old(heap)@.to_multiset(),
        is_heap(final(heap)@, natural_lt::<T>()),
{
    let len = heap.len();
    let mut i = len / 2;
    while i > 0
        invariant
            lawful_order::<T>(),
            i <= len / 2,
            heap@.len() == len,
            heap@.len() == old(heap)@.len(),
            heapified_below(heap@, natural_lt::<T>(), idx(i)) == heapified(
                old(heap)@,
                natural_lt::<T>(),
            ),
        decreases i,
    {
        i = i - 1;
        let f = |a: &T, b: &T| -> (o: Ordering)
            ensures
                o == Ordering::Less <==> natural_lt::<T>()(*a, *b),
            { a.cmp(b) };
        proof {
            assert(decides(f, natural_lt::<T>()));
        }
        siftup_by(heap, len, i, f);
    }
    proof {
        lemma_heapified(old(heap)@, natural_lt::<T>());
    }
}

/// Sorts the region in ascending natural order of `T`: selection of the
/// smallest elements, carried through every position.
pub fn heap_sort<T: Ord>(heap: &mut [T])
    requires
        lawful_order::<T>(),
    ensures
        final(heap)@ == heap_sorted(old(heap)@, natural_lt::<T>()),
        final(heap)@.len() == old(heap)@.len(),
        final(heap)@.to_multiset() == old(heap)@.to_multiset(),
        ascending(final(heap)@, natural_lt::<T>()),
{
    let len = heap.len();
    let mut i: usize = 0;
    while i < len
        invariant
            lawful_order::<T>(),
            i <= len,
            heap@.len() == len,
            heap@.len() == old(heap)@.len(),
            heap@ == selected(old(heap)@, natural_lt::<T>(), idx(i)),
        decreases len - i,
    {
        let (_, rest) = heap.split_at_mut(i);
        heapify(rest);
        i = i + 1;
    }
    proof {
        lemma_heap_sorted(old(heap)@, natural_lt::<T>());
    }
}

} // verus!
