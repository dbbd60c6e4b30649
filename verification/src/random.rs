//! The source of random numbers: the `rand` crate's generator of the
//! calling thread. What stands here is believed of that crate, not proved.
use vstd::prelude::*;

verus! {

/// `rand::rngs::ThreadRng`, the handle to a thread's generator. Nothing is
/// known of its state.
#[verifier::external_type_specification]
#[verifier::external_body]
pub struct ExThreadRng(rand::rngs::ThreadRng);

/// `rand::rng`: a handle to the calling thread's generator. Nothing is
/// claimed of the handle. (On a thread's first use the generator is seeded
/// from the operating system, and the program stops if that fails.)
pub assume_specification[ rand::rng ]() -> (rng: rand::rngs::ThreadRng);

/// `rand::Rng::random_range` on the half-open range `low..high` of `i32`.
/// It panics on an empty range, which `requires` leaves out. Claimed: the
/// value drawn lies in the range. Which value comes is not stated, and two
/// calls may differ.
#[verifier::external_body]
pub(crate) fn random_in(rng: &mut rand::rngs::ThreadRng, low: i32, high: i32) -> (v: i32)
    requires
        low < high,
    ensures
        low <= v < high,
{
    rand::Rng::random_range(rng, low..high)
}

} // verus!
