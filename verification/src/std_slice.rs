//! What the library takes from `std` without a specification in `vstd`.

use vstd::prelude::*;

verus! {

/// `<[E]>::swap` of the standard library, which exchanges the elements at
/// two indices of a slice and leaves every other element where it is. Both
/// indices have to lie within the slice: out of bounds it panics.
///
/// Verus does not read the body of `swap`; this states what its
/// documentation promises.
pub assume_specification<E>[ <[E]>::swap ](slice: &mut [E], a: usize, b: usize)
    requires
        a < old(slice)@.len(),
        b < old(slice)@.len(),
    ensures
        final(slice)@ == old(slice)@.update(a as int, old(slice)@[b as int]).update(
            b as int,
            old(slice)@[a as int],
        ),
;

} // verus!
