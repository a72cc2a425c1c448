//! The source of chance: the thread-local generator of the `rand` crate.
//!
//! Nothing here is proved. Each item states what the library takes on trust
//! from `rand`.

use rand::Rng;
use vstd::prelude::*;

verus! {

/// `rand::rngs::ThreadRng`, a handle to the generator of the current
/// thread. Its inside is not looked at.
#[verifier::external_type_specification]
#[verifier::external_body]
pub struct ExThreadRng(rand::rngs::ThreadRng);

/// `rand::thread_rng` hands out the generator of the current thread.
/// Nothing is claimed of it. (It panics where the operating system gives no
/// entropy to seed the generator. No input decides that, so no `requires`
/// can leave it out.)
pub assume_specification[ rand::thread_rng ]() -> (rng: rand::rngs::ThreadRng);

/// Calls `Rng::gen_range` with the range `0..bound` and returns what it
/// drew.
///
/// Trusted: for a range that is not empty, `gen_range` returns a value that
/// lies in the range, so one below `bound`. Which one is left to chance. On
/// an empty range `gen_range` panics, so `bound` must be positive.
///
/// (The generator of the thread seeds itself anew from the operating system
/// from time to time, and a draw panics where that fails. No input decides
/// that either.)
#[verifier::external_body]
pub(crate) fn random_index(rng: &mut rand::rngs::ThreadRng, bound: usize) -> (index: usize)
    requires
        bound > 0,
    ensures
        index < bound,
{
    rng.gen_range(0..bound)
}

} // verus!
