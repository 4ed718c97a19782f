//! Priority relations: what it means for one element to sit above another.

use vstd::prelude::*;
use vstd::std_specs::cmp::{OrdSpec, PartialEqSpec, PartialOrdIs, PartialOrdSpec};

verus! {

/// A strict relation "`a` has higher priority than `b`" together with the
/// executable comparison that decides it.
///
/// The heap never inspects its elements except through this interface, so the
/// relation alone decides whether it behaves as a min-heap, a max-heap or
/// something else.
pub trait Priority<T> {
    /// Whether `higher_priority` can be relied on to compute `outranks`.
    /// Comparators that compare through `T`'s own operators are valid exactly
    /// when those operators follow their specification.
    spec fn valid(&self) -> bool;

    /// The relation itself: `a` must sit above `b`.
    spec fn outranks(&self, a: T, b: T) -> bool;

    /// Decides `outranks(a, b)`.
    fn higher_priority(&self, a: &T, b: &T) -> (r: bool)
        requires
            self.valid(),
        ensures
            r == self.outranks(*a, *b),
    ;
}

/// The natural order, smallest first: `a` outranks `b` iff `a < b`.
pub struct Ascending;

/// The natural order reversed, largest first: `a` outranks `b` iff `a > b`.
pub struct Descending;

impl<T: Ord> Priority<T> for Ascending {
    open spec fn valid(&self) -> bool {
        T::obeys_partial_cmp_spec()
    }

    open spec fn outranks(&self, a: T, b: T) -> bool {
        a.is_lt(&b)
    }

    fn higher_priority(&self, a: &T, b: &T) -> (r: bool) {
        *a < *b
    }
}

impl<T: Ord> Priority<T> for Descending {
    open spec fn valid(&self) -> bool {
        T::obeys_partial_cmp_spec()
    }

    open spec fn outranks(&self, a: T, b: T) -> bool {
        a.is_gt(&b)
    }

    fn higher_priority(&self, a: &T, b: &T) -> (r: bool) {
        *a > *b
    }
}

/// Any function of two elements is a priority relation: `a` outranks `b`
/// where the function can return `true` for them. It is valid where it
/// accepts every pair of elements and never has two answers for one pair.
impl<T, F: Fn(&T, &T) -> bool> Priority<T> for F {
    open spec fn valid(&self) -> bool {
        &&& forall|a: T, b: T| #[trigger] call_requires(*self, (&a, &b))
        &&& forall|a: T, b: T|
            !(#[trigger] call_ensures(*self, (&a, &b), true) && call_ensures(
                *self,
                (&a, &b),
                false,
            ))
    }

    open spec fn outranks(&self, a: T, b: T) -> bool {
        call_ensures(*self, (&a, &b), true)
    }

    fn higher_priority(&self, a: &T, b: &T) -> (r: bool) {
        self(a, b)
    }
}

/// A function that accepts every pair of elements and never has two answers
/// for one pair is a valid priority relation.
pub proof fn lemma_function_valid<T, F: Fn(&T, &T) -> bool>(f: F)
    requires
        forall|a: T, b: T| #[trigger] call_requires(f, (&a, &b)),
        forall|a: T, b: T|
            !(#[trigger] call_ensures(f, (&a, &b), true) && call_ensures(f, (&a, &b), false)),
    ensures
        f.valid(),
        forall|a: T, b: T| #[trigger] f.outranks(a, b) == call_ensures(f, (&a, &b), true),
{
}

/// No element outranks itself.
pub open spec fn irreflexive<T, P: Priority<T>>(p: P) -> bool {
    forall|a: T| !#[trigger] p.outranks(a, a)
}

/// If `a` outranks `b` and `b` outranks `c`, then `a` outranks `c`.
pub open spec fn transitive<T, P: Priority<T>>(p: P) -> bool {
    forall|a: T, b: T, c: T|
        #![trigger p.outranks(a, b), p.outranks(b, c)]
        p.outranks(a, b) && p.outranks(b, c) ==> p.outranks(a, c)
}

/// If `a` does not outrank `b` and `b` does not outrank `c`, then `a` does
/// not outrank `c`: "not higher than" is transitive too, so elements that do
/// not outrank each other form classes of equal rank.
pub open spec fn negatively_transitive<T, P: Priority<T>>(p: P) -> bool {
    forall|a: T, b: T, c: T|
        #![trigger p.outranks(a, b), p.outranks(b, c)]
        !p.outranks(a, b) && !p.outranks(b, c) ==> !p.outranks(a, c)
}

/// The relations under which a heap orders its elements consistently: strict
/// weak orders. The natural orders of the integers are of this kind, as is
/// any order by a key.
pub open spec fn strict_weak_order<T, P: Priority<T>>(p: P) -> bool {
    &&& irreflexive(p)
    &&& transitive(p)
    &&& negatively_transitive(p)
}

/// Under a strict weak order no two elements outrank each other.
pub proof fn lemma_asymmetric<T, P: Priority<T>>(p: P, a: T, b: T)
    requires
        strict_weak_order(p),
        p.outranks(a, b),
    ensures
        !p.outranks(b, a),
{
    if p.outranks(b, a) {
        assert(p.outranks(a, a));
    }
}

/// Where `T`'s comparison operators obey the laws of a total order, both
/// natural orders are valid strict weak orders.
pub proof fn lemma_natural_orders<T: Ord>()
    requires
        vstd::laws_cmp::obeys_cmp::<T>(),
    ensures
        Priority::<T>::valid(&Ascending),
        Priority::<T>::valid(&Descending),
        strict_weak_order::<T, Ascending>(Ascending),
        strict_weak_order::<T, Descending>(Descending),
{
    reveal(vstd::laws_cmp::obeys_cmp_partial_ord);
    reveal(vstd::laws_cmp::obeys_cmp_ord);
    reveal(vstd::laws_cmp::obeys_partial_cmp_spec_properties);
    reveal(vstd::laws_eq::obeys_eq_spec_properties);
    assert forall|a: T, b: T, c: T|
        !Ascending.outranks(a, b) && !Ascending.outranks(b, c) implies !Ascending.outranks(
        a,
        c,
    ) by {
        if a.is_lt(&c) {
            assert(a.partial_cmp_spec(&b) == Some(a.cmp_spec(&b)));
            assert(b.partial_cmp_spec(&c) == Some(b.cmp_spec(&c)));
            if a.is_gt(&b) {
                assert(b.is_lt(&a));
            } else if b.is_gt(&c) {
                assert(c.is_lt(&b));
            } else {
                assert(a.eq_spec(&b) && b.eq_spec(&c));
                assert(a.eq_spec(&c));
            }
        }
    }
    assert forall|a: T, b: T, c: T|
        !Descending.outranks(a, b) && !Descending.outranks(b, c) implies !Descending.outranks(
        a,
        c,
    ) by {
        if a.is_gt(&c) {
            assert(a.partial_cmp_spec(&b) == Some(a.cmp_spec(&b)));
            assert(b.partial_cmp_spec(&c) == Some(b.cmp_spec(&c)));
            if a.is_lt(&b) {
                assert(b.is_gt(&a));
            } else if b.is_lt(&c) {
                assert(c.is_gt(&b));
            } else {
                assert(a.eq_spec(&b) && b.eq_spec(&c));
                assert(a.eq_spec(&c));
            }
        }
    }
}

} // verus!
