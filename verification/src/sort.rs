//! An in-place comparison sort.

use vstd::prelude::*;
use vstd::std_specs::cmp::{PartialOrdIs, PartialOrdSpec};
use crate::lemmas::lemma_exchange_permutes;
use crate::model::exchange;
use crate::priority::{lemma_natural_orders, Ascending, Priority};

verus! {

/// `a` is less than `b` in the order of `T`.
pub open spec fn less<T: PartialOrd>(a: T, b: T) -> bool {
    a.is_lt(&b)
}

/// The comparison operators of `T` follow their specification, and `<` is a
/// strict weak order: irreflexive, transitive, and with "not less than"
/// transitive too. The integers are ordered so; a type with values that
/// compare to nothing is not.
pub open spec fn orders_strictly<T: PartialOrd>() -> bool {
    &&& T::obeys_partial_cmp_spec()
    &&& forall|a: T| !#[trigger] less(a, a)
    &&& forall|a: T, b: T, c: T|
        #![trigger less(a, b), less(b, c)]
        less(a, b) && less(b, c) ==> less(a, c)
    &&& forall|a: T, b: T, c: T|
        #![trigger less(a, b), less(b, c)]
        !less(a, b) && !less(b, c) ==> !less(a, c)
}

/// No element of `s` is less than one that comes before it.
pub open spec fn ascending<T: PartialOrd>(s: Seq<T>) -> bool {
    forall|i: int, j: int| 0 <= i < j < s.len() ==> !less(#[trigger] s[j], #[trigger] s[i])
}

/// Every element of `s` from index `from` on is not less than any element
/// before it.
pub open spec fn settled_from<T: PartialOrd>(s: Seq<T>, from: int) -> bool {
    forall|i: int, j: int|
        0 <= i < j < s.len() && from <= j ==> !less(#[trigger] s[j], #[trigger] s[i])
}

/// Sorts `array` in place by exchanging neighbours that stand in the wrong
/// order, pass after pass.
///
/// The result holds the same elements. Where `T` is ordered strictly, it is
/// ascending.
pub fn sort<T: PartialOrd>(array: &mut [T])
    ensures
        final(array)@.len() == old(array)@.len(),
        final(array)@.to_multiset() == old(array)@.to_multiset(),
        orders_strictly::<T>() ==> ascending(final(array)@),
{
    let mut i: usize = 0;
    while i < array.len()
        invariant
            i <= array@.len(),
            array@.len() == old(array)@.len(),
            array@.to_multiset() == old(array)@.to_multiset(),
            orders_strictly::<T>() ==> settled_from(array@, array@.len() - i),
        decreases array@.len() - i,
    {
        let mut j: usize = 1;
        while j < array.len() - i
            invariant
                i < array@.len(),
                1 <= j <= array@.len() - i,
                array@.len() == old(array)@.len(),
                array@.to_multiset() == old(array)@.to_multiset(),
                orders_strictly::<T>() ==> settled_from(array@, array@.len() - i),
                orders_strictly::<T>() ==> forall|k: int|
                    0 <= k < j ==> !less(array@[j - 1], #[trigger] array@[k]),
            decreases array@.len() - j,
        {
            let ghost before = array@;
            if array[j] < array[j - 1] {
                array.swap(j - 1, j);
                proof {
                    lemma_exchange_permutes(before, j - 1, j as int);
                    assert(array@ == exchange(before, j - 1, j as int));
                    if orders_strictly::<T>() {
                        assert(less(before[j as int], before[j - 1]));
                        assert forall|k: int| 0 <= k < j + 1 implies !less(
                            array@[j as int],
                            #[trigger] array@[k],
                        ) by {
                            if k == j {
                            } else if k == j - 1 {
                                if less(before[j - 1], before[j as int]) {
                                    assert(less(before[j - 1], before[j as int]) && less(
                                        before[j as int],
                                        before[j - 1],
                                    ));
                                }
                            } else {
                                assert(array@[k] == before[k]);
                            }
                        }
                        assert forall|a: int, b: int|
                            0 <= a < b < array@.len() && array@.len() - i <= b implies !less(
                            #[trigger] array@[b],
                            #[trigger] array@[a],
                        ) by {
                            assert(array@[b] == before[b]);
                            if a == j {
                                assert(array@[a] == before[j - 1]);
                            } else if a == j - 1 {
                                assert(array@[a] == before[j as int]);
                            } else {
                                assert(array@[a] == before[a]);
                            }
                        }
                    }
                }
            } else {
                proof {
                    if orders_strictly::<T>() {
                        assert(!less(array@[j as int], array@[j - 1]));
                        assert forall|k: int| 0 <= k < j + 1 implies !less(
                            array@[j as int],
                            #[trigger] array@[k],
                        ) by {
                            if k < j {
                                assert(!less(array@[j as int], array@[j - 1]) && !less(
                                    array@[j - 1],
                                    array@[k],
                                ));
                            }
                        }
                    }
                }
            }
            j += 1;
        }
        i += 1;
    }
}

/// A type whose comparison operators obey the laws of a total order is
/// ordered strictly.
pub proof fn lemma_total_order_is_strict<T: Ord>()
    requires
        vstd::laws_cmp::obeys_cmp::<T>(),
    ensures
        orders_strictly::<T>(),
{
    lemma_natural_orders::<T>();
    assert forall|a: T| !#[trigger] less(a, a) by {
        assert(!Ascending.outranks(a, a));
    }
    assert forall|a: T, b: T, c: T| #![trigger less(a, b), less(b, c)]
        less(a, b) && less(b, c) implies less(a, c) by {
        assert(Ascending.outranks(a, b) && Ascending.outranks(b, c));
    }
    assert forall|a: T, b: T, c: T| #![trigger less(a, b), less(b, c)]
        !less(a, b) && !less(b, c) implies !less(a, c) by {
        assert(!Ascending.outranks(a, b) && !Ascending.outranks(b, c));
    }
}

} // verus!
