//! Comparing text.

use vstd::prelude::*;

verus! {

/// Compares two string slices with `str::eq`, which holds exactly when the
/// two hold the same characters.
#[verifier::external_body]
pub(crate) fn same_text(a: &str, b: &str) -> (r: bool)
    ensures
        r == (a@ == b@),
{
    a == b
}

} // verus!
