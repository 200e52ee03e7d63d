//! The randomness the game draws on, taken from the `rand` crate.
//!
//! Nothing here is proved: each item states what is assumed of `rand`.

use rand::rngs::ThreadRng;
use rand::Rng;
use vstd::prelude::*;

verus! {

/// `rand::rngs::ThreadRng`, the handle to the thread-local generator. Its
/// content is opaque to the proofs.
#[verifier::external_type_specification]
#[verifier::external_body]
pub struct ExThreadRng(ThreadRng);

/// Calls `rand::thread_rng`, which hands out the handle to the calling
/// thread's generator. Nothing is assumed of the handle.
#[verifier::external_body]
pub(crate) fn thread_rng() -> (rng: ThreadRng) {
    rand::thread_rng()
}

/// Calls `Rng::gen_range` on the half-open range `0..bound`. Assumed: the
/// value drawn lies in that range. An empty range makes `gen_range` panic,
/// hence the precondition.
#[verifier::external_body]
pub(crate) fn random_below(rng: &mut ThreadRng, bound: usize) -> (n: usize)
    requires
        bound > 0,
    ensures
        n < bound,
{
    rng.gen_range(0..bound)
}

/// Calls `Rng::gen` for a `bool`. Nothing is assumed of the value drawn.
#[verifier::external_body]
pub(crate) fn random_bool(rng: &mut ThreadRng) -> (b: bool) {
    rng.gen::<bool>()
}

} // verus!
