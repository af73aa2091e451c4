//! The total order that `Ord` promises, stated over `partial_cmp_spec`.
use vstd::prelude::*;
use vstd::laws_cmp::obeys_cmp;
use vstd::laws_eq::{obeys_eq_spec_properties, obeys_concrete_eq};
use vstd::laws_cmp::{obeys_cmp_ord, obeys_cmp_partial_ord, obeys_partial_cmp_spec_properties};
use vstd::std_specs::cmp::{OrdSpec, PartialEqSpec, PartialOrdSpec};
use core::cmp::Ordering;

verus! {

/// `a <= b` in the order of `T`.
pub open spec fn ord_le<T: PartialOrd>(a: T, b: T) -> bool {
    a.partial_cmp_spec(&b) matches Some(Ordering::Less | Ordering::Equal)
}

/// The type's `Ord` impl obeys the laws of a total order.
pub open spec fn lawful_order<T: Ord>() -> bool {
    obeys_cmp::<T>()
}

/// Under the laws of `Ord`, `<=` is a total preorder and `PartialOrd::le` computes it.
pub proof fn lemma_ord_laws<T: Ord>()
    requires
        lawful_order::<T>(),
    ensures
        T::obeys_partial_cmp_spec(),
        forall|a: T, b: T| #[trigger] ord_le(a, b) || ord_le(b, a),
        forall|a: T, b: T, c: T| #[trigger] ord_le(a, b) && #[trigger] ord_le(b, c) ==> ord_le(a, c),
        forall|a: T| #[trigger] ord_le(a, a),
{
    reveal(obeys_cmp_partial_ord);
    reveal(obeys_cmp_ord);
    reveal(obeys_partial_cmp_spec_properties);
    reveal(obeys_eq_spec_properties);
    assert forall|a: T, b: T| #[trigger] ord_le(a, b) || ord_le(b, a) by {
        assert(a.partial_cmp_spec(&b) == Some(a.cmp_spec(&b)));
        assert(b.partial_cmp_spec(&a) == Some(b.cmp_spec(&a)));
        if a.partial_cmp_spec(&b) == Some(Ordering::Greater) {
            assert(b.partial_cmp_spec(&a) == Some(Ordering::Less));
        }
    }
    assert forall|a: T| #[trigger] ord_le(a, a) by {
        assert(a.partial_cmp_spec(&a) == Some(a.cmp_spec(&a)));
        if a.partial_cmp_spec(&a) == Some(Ordering::Greater) {
            assert(a.partial_cmp_spec(&a) == Some(Ordering::Less));
        }
    }
    assert forall|a: T, b: T, c: T| #[trigger] ord_le(a, b) && #[trigger] ord_le(b, c) implies ord_le(a, c) by {
        assert(a.partial_cmp_spec(&c) == Some(a.cmp_spec(&c)));
        assert(c.partial_cmp_spec(&a) == Some(c.cmp_spec(&a)));
        assert(c.partial_cmp_spec(&b) == Some(c.cmp_spec(&b)));
        assert(b.partial_cmp_spec(&a) == Some(b.cmp_spec(&a)));
        if a.partial_cmp_spec(&c) == Some(Ordering::Greater) {
            assert(c.partial_cmp_spec(&a) == Some(Ordering::Less));
            if a.partial_cmp_spec(&b) == Some(Ordering::Less) {
                if b.partial_cmp_spec(&c) == Some(Ordering::Less) {
                    assert(a.partial_cmp_spec(&c) == Some(Ordering::Less));
                } else {
                    assert(b.eq_spec(&c));
                    assert(c.eq_spec(&b));
                    assert(c.partial_cmp_spec(&b) == Some(Ordering::Equal));
                    assert(c.partial_cmp_spec(&b) == Some(Ordering::Less));
                }
            } else {
                assert(a.eq_spec(&b));
                assert(b.eq_spec(&a));
                assert(b.partial_cmp_spec(&a) == Some(Ordering::Equal));
                if b.partial_cmp_spec(&c) == Some(Ordering::Less) {
                    assert(b.partial_cmp_spec(&a) == Some(Ordering::Less));
                } else {
                    assert(b.eq_spec(&c));
                    assert(a.eq_spec(&c));
                }
            }
        }
    }
}

/// `u32` obeys the laws of `Ord`, and `<=` on it is the usual order.
pub proof fn lemma_u32_order()
    ensures
        lawful_order::<u32>(),
        forall|a: u32, b: u32| #[trigger] ord_le(a, b) <==> a <= b,
{
    broadcast use vstd::laws_cmp::group_laws_cmp;
}

/// The type's `==` is equality of values.
pub open spec fn lawful_eq<T: PartialEq>() -> bool {
    obeys_concrete_eq::<T>()
}

/// Under `lawful_eq`, `PartialEq::eq` computes equality of values.
pub proof fn lemma_eq_laws<T: PartialEq>()
    requires
        lawful_eq::<T>(),
    ensures
        T::obeys_eq_spec(),
        forall|a: T, b: T| #[trigger] a.eq_spec(&b) <==> (a == b),
{
    reveal(obeys_concrete_eq);
}

} // verus!
