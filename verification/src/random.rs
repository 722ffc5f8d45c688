//! The operating system's random number source.

use vstd::prelude::*;

verus! {

/// The error of the system's random number source. Nothing is known of what
/// it holds.
#[verifier::external_type_specification]
#[verifier::external_body]
pub struct ExSourceError(getrandom::Error);

/// Calls `getrandom::getrandom` on the whole of `dest`.
///
/// Trusted: the call writes through a slice, so `dest` keeps its length,
/// whether the call succeeds or fails; and for an empty `dest` it returns
/// success at once, without asking the system. Nothing is claimed of the
/// bytes, which are random on success and unspecified on failure, nor of
/// when a call on a `dest` that is not empty succeeds.
#[verifier::external_body]
pub(crate) fn fill_random(dest: &mut Vec<u8>) -> (r: Result<(), getrandom::Error>)
    ensures
        final(dest)@.len() == old(dest)@.len(),
        old(dest)@.len() == 0 ==> r is Ok,
{
    getrandom::getrandom(dest.as_mut_slice())
}

} // verus!
