//! The random source the game draws from, and the draws the library makes.
use vstd::prelude::*;
use rand::Rng;

verus! {

/// The thread-local random generator of `rand`.
#[verifier::external_type_specification]
#[verifier::external_body]
pub struct ExThreadRng(rand::rngs::ThreadRng);

/// `rand::thread_rng`: the thread's generator, seeded by the system.
/// Nothing is claimed of its state.
#[verifier::external_body]
pub(crate) fn thread_rng() -> rand::rngs::ThreadRng {
    rand::thread_rng()
}

/// `Rng::gen_range` over `low..=high`: claims only that the value drawn lies
/// in the range, which the crate's documentation promises; which value comes
/// depends on the generator's state. The crate panics on an empty range, so
/// the range must not be empty.
#[verifier::external_body]
pub(crate) fn roll_between(rng: &mut rand::rngs::ThreadRng, low: i16, high: i16) -> (r: i16)
    requires
        low <= high,
    ensures
        low <= r <= high,
{
    rng.gen_range(low..=high)
}

} // verus!
