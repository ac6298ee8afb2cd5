//! What the two repair walks do to a region: they permute it, and they
//! restore the heap invariant where it was broken at one position only.

use crate::model::{best_child, is_heap, left, parent, right, sifted_down, sifted_up, swapped};
use crate::order::{lemma_lt_transitive, strict_weak_order};
use vstd::prelude::*;

verus! {

/// Exchanging two elements keeps the multiset of elements.
pub proof fn lemma_swapped_permutes<T>(s: Seq<T>, i: int, j: int)
    requires
        0 <= i < s.len(),
        0 <= j < s.len(),
    ensures
        swapped(s, i, j).len() == s.len(),
        swapped(s, i, j).to_multiset() == s.to_multiset(),
{
    broadcast use vstd::multiset::group_multiset_axioms;

    let t = s.update(i, s[j]);
    vstd::seq_lib::to_multiset_update(s, i, s[j]);
    vstd::seq_lib::to_multiset_update(t, j, s[i]);
    vstd::seq_lib::to_multiset_contains(s, s[i]);
    vstd::seq_lib::to_multiset_contains(s, s[j]);
}

/// The heap invariant holds everywhere but between `pos` and its parent, and
/// the children of `pos` already respect its parent.
pub open spec fn heap_but_above<T>(s: Seq<T>, lt: spec_fn(T, T) -> bool, pos: int) -> bool {
    &&& forall|i: int| 1 <= i < s.len() && i != pos ==> !lt(#[trigger] s[i], s[parent(i)])
    &&& forall|i: int|
        1 <= pos && 1 <= i < s.len() && parent(i) == pos ==> !lt(
            #[trigger] s[i],
            s[parent(pos)],
        )
}

/// Moving the one misplaced element toward the root, all the way if need be,
/// restores the heap invariant.
pub proof fn lemma_sifted_down_restores<T>(s: Seq<T>, lt: spec_fn(T, T) -> bool, pos: int)
    requires
        strict_weak_order(lt),
        0 <= pos < s.len(),
        heap_but_above(s, lt, pos),
    ensures
        is_heap(sifted_down(s, lt, 0, pos), lt),
    decreases pos,
{
    if 0 < pos && lt(s[pos], s[parent(pos)]) {
        let p = parent(pos);
        let t = swapped(s, pos, p);
        assert(heap_but_above(t, lt, p)) by {
            // The element that came up from `pos` orders before the one that
            // went down, so the other child of `p` does not order before it.
            assert forall|i: int| 1 <= i < t.len() && i != p implies !lt(
                #[trigger] t[i],
                t[parent(i)],
            ) by {
                if parent(i) == p && lt(s[i], s[pos]) {
                    lemma_lt_transitive(lt, s[i], s[pos], s[p]);
                }
            }
        }
        lemma_sifted_down_restores(t, lt, p);
    }
}

/// A heap with one more element behind it is a heap but for that element.
pub proof fn lemma_appended_is_heap_but_above<T>(s: Seq<T>, lt: spec_fn(T, T) -> bool)
    requires
        s.len() >= 1,
        is_heap(s.drop_last(), lt),
    ensures
        heap_but_above(s, lt, s.len() - 1),
{
    let pos = s.len() - 1;
    assert forall|i: int| 1 <= i < s.len() && i != pos implies !lt(#[trigger] s[i], s[parent(i)]) by {
        assert(s.drop_last()[i] == s[i]);
    }
}

/// The heap invariant holds between every element below `end` and its
/// parent, for the parents at `lo` or later: each of those positions is the
/// root of a heap.
pub open spec fn heap_within<T>(s: Seq<T>, lt: spec_fn(T, T) -> bool, lo: int, end: int) -> bool {
    forall|i: int| 1 <= i < end && lo <= parent(i) ==> !lt(#[trigger] s[i], s[parent(i)])
}

/// As [`heap_within`], but for the children of `pos`, which may order before
/// it; they already respect the parent of `pos`, where that parent counts.
pub open spec fn heap_but_below<T>(
    s: Seq<T>,
    lt: spec_fn(T, T) -> bool,
    lo: int,
    end: int,
    pos: int,
) -> bool {
    &&& forall|i: int|
        1 <= i < end && lo <= parent(i) && parent(i) != pos ==> !lt(#[trigger] s[i], s[parent(i)])
    &&& forall|i: int|
        1 <= pos && lo <= parent(pos) && 1 <= i < end && parent(i) == pos ==> !lt(
            #[trigger] s[i],
            s[parent(pos)],
        )
}

/// Moving an element toward the leaves permutes the region, and touches
/// nothing before `pos` and nothing from `end` on.
pub proof fn lemma_sifted_up_permutes<T>(s: Seq<T>, lt: spec_fn(T, T) -> bool, end: int, pos: int)
    ensures
        sifted_up(s, lt, end, pos).len() == s.len(),
        sifted_up(s, lt, end, pos).to_multiset() == s.to_multiset(),
        forall|i: int|
            0 <= i < s.len() && (i < pos || end <= i) ==> #[trigger] sifted_up(s, lt, end, pos)[i]
                == s[i],
    decreases end - pos,
{
    if 0 <= pos && left(pos) < end <= s.len() {
        let child = best_child(s, lt, end, pos);
        if lt(s[child], s[pos]) {
            let t = swapped(s, pos, child);
            lemma_swapped_permutes(s, pos, child);
            lemma_sifted_up_permutes(t, lt, end, child);
            assert forall|i: int| 0 <= i < s.len() && (i < pos || end <= i) implies #[trigger] sifted_up(
                s,
                lt,
                end,
                pos,
            )[i] == s[i] by {
                assert(sifted_up(t, lt, end, child)[i] == t[i]);
            }
        }
    }
}

/// Moving the one misplaced element toward the leaves restores the heap
/// invariant among the first `end` positions, from `lo` on.
pub proof fn lemma_sifted_up_restores<T>(
    s: Seq<T>,
    lt: spec_fn(T, T) -> bool,
    lo: int,
    end: int,
    pos: int,
)
    requires
        strict_weak_order(lt),
        0 <= lo <= pos,
        end <= s.len(),
        heap_but_below(s, lt, lo, end, pos),
    ensures
        heap_within(sifted_up(s, lt, end, pos), lt, lo, end),
    decreases end - pos,
{
    if left(pos) < end {
        let child = best_child(s, lt, end, pos);
        if lt(s[child], s[pos]) {
            // The best child comes up: the other child does not order before
            // it, and neither does what went down.
            let t = swapped(s, pos, child);
            assert(heap_but_below(t, lt, lo, end, child));
            lemma_sifted_up_restores(t, lt, lo, end, child);
        } else if child == right(pos) && lt(s[left(pos)], s[pos]) {
            // The right child orders before the left one, so the left one
            // cannot order before `pos` where the right one does not.
            lemma_lt_transitive(lt, s[child], s[left(pos)], s[pos]);
        }
    }
}

/// Each element of a region is an element of every permutation of it.
pub proof fn lemma_permutation_holds<T>(s: Seq<T>, t: Seq<T>, i: int)
    requires
        s.to_multiset() == t.to_multiset(),
        0 <= i < s.len(),
    ensures
        t.contains(s[i]),
{
    vstd::seq_lib::to_multiset_contains(s, s[i]);
    vstd::seq_lib::to_multiset_contains(t, s[i]);
}

/// In a heap no element orders before the root.
pub proof fn lemma_root_is_least<T>(s: Seq<T>, lt: spec_fn(T, T) -> bool, i: int)
    requires
        strict_weak_order(lt),
        is_heap(s, lt),
        0 <= i < s.len(),
    ensures
        !lt(s[i], s[0]),
    decreases i,
{
    if i > 0 {
        lemma_root_is_least(s, lt, parent(i));
    }
}

} // verus!
