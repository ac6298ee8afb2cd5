//! The mathematical model: a region is a `Seq<T>`, laid out as a binary tree
//! by position, and every operation is a function from sequences to sequences.

use vstd::prelude::*;

verus! {

/// A machine index read as a mathematical position.
#[verifier::inline]
pub open spec fn idx(i: usize) -> int {
    i as int
}

/// Position of the parent of position `i`, for `i >= 1`.
pub open spec fn parent(i: int) -> int {
    (i - 1) / 2
}

/// Position of the left child of position `i`.
pub open spec fn left(i: int) -> int {
    2 * i + 1
}

/// Position of the right child of position `i`.
pub open spec fn right(i: int) -> int {
    2 * i + 2
}

/// `s` with the elements at positions `i` and `j` exchanged.
pub open spec fn swapped<T>(s: Seq<T>, i: int, j: int) -> Seq<T> {
    s.update(i, s[j]).update(j, s[i])
}

/// The heap invariant: no element orders before its parent.
pub open spec fn is_heap<T>(s: Seq<T>, lt: spec_fn(T, T) -> bool) -> bool {
    forall|i: int| 1 <= i < s.len() ==> !lt(#[trigger] s[i], s[parent(i)])
}

/// The last element of the region is a minimum of it: no element orders
/// before it.
pub open spec fn last_is_least<T>(s: Seq<T>, lt: spec_fn(T, T) -> bool) -> bool {
    forall|i: int| 0 <= i < s.len() ==> !lt(#[trigger] s[i], s.last())
}

/// The region after the element at `pos` has been moved toward the root:
/// while `pos` lies above `start` and the element orders before its parent,
/// the two are exchanged and the walk goes on from the parent.
pub open spec fn sifted_down<T>(s: Seq<T>, lt: spec_fn(T, T) -> bool, start: int, pos: int) -> Seq<T>
    decreases pos,
{
    if start < pos && 0 < pos < s.len() && lt(s[pos], s[parent(pos)]) {
        sifted_down(swapped(s, pos, parent(pos)), lt, start, parent(pos))
    } else {
        s
    }
}

/// The child of `pos` that orders first among those below `end`; the left
/// child wins ties. Meant for a `pos` whose left child lies below `end`.
pub open spec fn best_child<T>(s: Seq<T>, lt: spec_fn(T, T) -> bool, end: int, pos: int) -> int {
    if right(pos) < end && lt(s[right(pos)], s[left(pos)]) {
        right(pos)
    } else {
        left(pos)
    }
}

/// The region after the element at `pos` has been moved toward the leaves
/// within the first `end` positions: while it has a child and its best child
/// orders before it, the two are exchanged and the walk goes on from the
/// child.
pub open spec fn sifted_up<T>(s: Seq<T>, lt: spec_fn(T, T) -> bool, end: int, pos: int) -> Seq<T>
    decreases end - pos,
{
    if 0 <= pos && left(pos) < end <= s.len() {
        let child = best_child(s, lt, end, pos);
        if lt(s[child], s[pos]) {
            sifted_up(swapped(s, pos, child), lt, end, child)
        } else {
            s
        }
    } else {
        s
    }
}

/// The region after the positions `k - 1`, ..., `0` have been repaired
/// toward the leaves, one after the other in that order.
pub open spec fn heapified_below<T>(s: Seq<T>, lt: spec_fn(T, T) -> bool, k: int) -> Seq<T>
    decreases k,
{
    if k <= 0 {
        s
    } else {
        heapified_below(sifted_up(s, lt, s.len() as int, k - 1), lt, k - 1)
    }
}

/// The region after heap construction: every position that has a child is
/// repaired toward the leaves, from the last such position up to the root.
pub open spec fn heapified<T>(s: Seq<T>, lt: spec_fn(T, T) -> bool) -> Seq<T> {
    heapified_below(s, lt, s.len() as int / 2)
}

/// The region after selection of its `n` smallest elements: for each of the
/// first `n` positions in turn, heap construction on the rest of the region
/// from that position on brings a minimum of that rest to the position.
pub open spec fn selected<T>(s: Seq<T>, lt: spec_fn(T, T) -> bool, n: int) -> Seq<T>
    decreases n,
{
    if n <= 0 {
        s
    } else {
        let t = selected(s, lt, n - 1);
        t.take(n - 1) + heapified(t.skip(n - 1), lt)
    }
}

/// The region after heap sort: selection carried through every position.
pub open spec fn heap_sorted<T>(s: Seq<T>, lt: spec_fn(T, T) -> bool) -> Seq<T> {
    selected(s, lt, s.len() as int)
}

/// Each of the first `n` positions holds an element that nothing behind it
/// orders before: the first `n` elements are in ascending order, and they are
/// `n` smallest elements of the region.
pub open spec fn smallest_first<T>(s: Seq<T>, lt: spec_fn(T, T) -> bool, n: int) -> bool {
    forall|i: int, j: int| 0 <= i < n && i < j < s.len() ==> !lt(#[trigger] s[j], #[trigger] s[i])
}

/// The region is in ascending order: no element orders before an earlier one.
pub open spec fn ascending<T>(s: Seq<T>, lt: spec_fn(T, T) -> bool) -> bool {
    forall|i: int, j: int| 0 <= i < j < s.len() ==> !lt(#[trigger] s[j], #[trigger] s[i])
}

} // verus!
