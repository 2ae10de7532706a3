//! The one place where chance enters the engine: picking among spawn
//! candidates.

use vstd::prelude::*;

verus! {

/// Relies on rand::Rng::gen_range over the thread-local generator
/// (rand::thread_rng) with the range 0..n: the sample always lies inside
/// the range, which must not be empty (an empty range panics). Which index
/// comes back is left entirely open.
#[verifier::external_body]
pub(crate) fn random_index(n: usize) -> (r: usize)
    requires
        n > 0,
    ensures
        r < n,
{
    rand::Rng::gen_range(&mut rand::thread_rng(), 0..n)
}

} // verus!
