//! What `==` means on the cells of a grid, for use in contracts.

use vstd::prelude::*;
use vstd::std_specs::cmp::PartialEqSpec;

verus! {

/// Whether `==` on values of type `T` is known to follow [`cell_eq`].
///
/// This holds of the integer types, of `bool` and of the cells of this
/// library, `Cell` and `Char`.
pub open spec fn cell_eq_known<T: PartialEq>() -> bool {
    T::obeys_eq_spec()
}

/// What `==` on two values of type `T` means.
pub open spec fn cell_eq<T: PartialEq>(a: &T, b: &T) -> bool {
    a.eq_spec(b)
}

/// On `bool` cells `==` is known, and is equality.
pub proof fn lemma_bool_cell_eq(a: bool, b: bool)
    ensures
        cell_eq_known::<bool>(),
        cell_eq(&a, &b) == (a == b),
{
}

/// On `Char` cells `==` is known, and compares the bytes.
pub proof fn lemma_char_cell_eq(a: crate::cell::Char, b: crate::cell::Char)
    ensures
        cell_eq_known::<crate::cell::Char>(),
        cell_eq(&a, &b) == (a.0 == b.0),
{
}

} // verus!
