//! Bytes from the operating system's random source (`getrandom`).

use vstd::prelude::*;

verus! {

#[verifier::external_type_specification]
#[verifier::external_body]
pub struct ExRandomError(getrandom::Error);

/// `getrandom::fill`: overwrites every byte of `dest` with OS randomness, or
/// reports that the source is unavailable. Which bytes come back is chance,
/// so nothing is said of them beyond their number.
#[verifier::external_body]
pub(crate) fn fill_random(dest: &mut Vec<u8>) -> (r: Result<(), getrandom::Error>)
    ensures
        final(dest)@.len() == old(dest)@.len(),
{
    getrandom::fill(dest.as_mut_slice())
}

/// The `Display` text of a `getrandom::Error`.
#[verifier::external_body]
pub(crate) fn random_error_text(e: &getrandom::Error) -> String {
    format!("{e}")
}

} // verus!
