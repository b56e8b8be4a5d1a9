use vstd::prelude::*;

verus! {

/// Compares two string slices with std's `==` on `str`, which is true exactly
/// when both hold the same sequence of characters.
#[verifier::external_body]
pub(crate) fn str_equals(a: &str, b: &str) -> (same: bool)
    ensures
        same == (a@ == b@),
{
    a == b
}

} // verus!
