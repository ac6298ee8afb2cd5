//! Orderings: the relations that a comparison function can stand for.
//!
//! Everything about heaps is stated over a relation `lt` of type
//! `spec_fn(T, T) -> bool`, read "orders strictly before". A comparison
//! function is tied to such a relation by [`decides`].

use std::cmp::Ordering;
use vstd::prelude::*;
use vstd::std_specs::cmp::{OrdSpec, PartialEqSpec, PartialOrdSpec};

verus! {

/// `lt` is the strict part of a total order that may have ties: no two
/// elements order before each other, and "does not order before" is
/// transitive.
pub open spec fn strict_weak_order<T>(lt: spec_fn(T, T) -> bool) -> bool {
    &&& forall|a: T, b: T| #[trigger] lt(a, b) ==> !lt(b, a)
    &&& forall|a: T, b: T, c: T| !(#[trigger] lt(a, b)) && !(#[trigger] lt(b, c)) ==> !lt(a, c)
}

/// The comparison function `f` decides the relation `lt`: whatever a call
/// `f(a, b)` returns, it is `Less` exactly when `a` orders strictly before `b`.
/// `Equal` and `Greater` are not told apart.
pub open spec fn decides<T, F: FnMut(&T, &T) -> Ordering>(f: F, lt: spec_fn(T, T) -> bool) -> bool {
    forall|a: T, b: T, o: Ordering| #[trigger]
        call_ensures(f, (&a, &b), o) ==> (o == Ordering::Less <==> lt(a, b))
}

/// `f` may be called on any two elements of `s`.
pub open spec fn callable_on<T, F: FnMut(&T, &T) -> Ordering>(f: F, s: Seq<T>) -> bool {
    forall|i: int, j: int|
        0 <= i < s.len() && 0 <= j < s.len() ==> call_requires(
            f,
            (&#[trigger] s[i], &#[trigger] s[j]),
        )
}

/// The natural ascending order of `T`, as the relation "is less than".
pub open spec fn natural_lt<T: Ord>() -> spec_fn(T, T) -> bool {
    |a: T, b: T| a.cmp_spec(&b) == Ordering::Less
}

/// The natural order of `T` can be relied on: `Ord::cmp` computes the order
/// that specifications speak of, and that order is total up to ties.
pub open spec fn lawful_order<T: Ord>() -> bool {
    &&& T::obeys_cmp_spec()
    &&& strict_weak_order(natural_lt::<T>())
}

/// A type whose comparisons obey the laws that `vstd::laws_cmp` states has a
/// natural order that can be relied on.
pub proof fn lemma_laws_give_lawful_order<T: Ord>()
    requires
        vstd::laws_cmp::obeys_cmp::<T>(),
    ensures
        lawful_order::<T>(),
{
    reveal(vstd::laws_cmp::obeys_cmp_ord);
    reveal(vstd::laws_cmp::obeys_cmp_partial_ord);
    reveal(vstd::laws_cmp::obeys_partial_cmp_spec_properties);
    reveal(vstd::laws_eq::obeys_eq_spec_properties);
    let lt = natural_lt::<T>();
    assert forall|a: T, b: T| #[trigger] lt(a, b) implies !lt(b, a) by {
        assert(b.partial_cmp_spec(&a) == Some(Ordering::Greater));
    }
    assert forall|a: T, b: T, c: T| !(#[trigger] lt(a, b)) && !(#[trigger] lt(b, c)) implies !lt(
        a,
        c,
    ) by {
        let ab = a.partial_cmp_spec(&b);
        let bc = b.partial_cmp_spec(&c);
        if a.partial_cmp_spec(&c) == Some(Ordering::Less) {
            assert(c.partial_cmp_spec(&a) == Some(Ordering::Greater));
            if ab == Some(Ordering::Greater) {
                // b < a < c, so b < c.
                assert(b.partial_cmp_spec(&a) == Some(Ordering::Less));
            } else if bc == Some(Ordering::Greater) {
                // a < c < b, so a < b.
                assert(c.partial_cmp_spec(&b) == Some(Ordering::Less));
            } else {
                // a, b and c are all equal.
                assert(a.eq_spec(&b) && b.eq_spec(&c));
            }
        }
    }
}

/// In a strict weak order, "orders before" is transitive.
pub proof fn lemma_lt_transitive<T>(lt: spec_fn(T, T) -> bool, a: T, b: T, c: T)
    requires
        strict_weak_order(lt),
        lt(a, b),
        lt(b, c),
    ensures
        lt(a, c),
{
}

} // verus!
