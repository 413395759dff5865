//! The operating system's random number generator.
use vstd::prelude::*;
use rand::RngCore;

verus! {

/// Fills `buf` with bytes from `rand::rngs::OsRng` (`RngCore::fill_bytes`).
///
/// The contract claims only that the buffer keeps its length: the bytes come
/// from the operating system's entropy source and nothing is stated of their
/// values.  `OsRng::fill_bytes` panics only when the operating system cannot
/// deliver random bytes, which no argument can cause.
#[verifier::external_body]
pub(crate) fn fill_random(buf: &mut [u8])
    ensures
        final(buf)@.len() == old(buf)@.len(),
{
    rand::rngs::OsRng.fill_bytes(buf);
}

} // verus!
