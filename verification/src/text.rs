//! String comparison for the engine's name keys.

use vstd::prelude::*;

verus! {

/// Relies on `<str as PartialEq>::eq` from std: it returns true exactly when
/// the two slices hold the same sequence of characters.
#[verifier::external_body]
pub(crate) fn str_eq(a: &str, b: &str) -> (r: bool)
    ensures
        r == (a@ == b@),
{
    a == b
}

} // verus!
