use rand::rngs::ThreadRng;
use rand::Rng;
use vstd::prelude::*;

verus! {

/// The handle of rand's thread-local generator. Nothing is known of what
/// it holds.
#[verifier::external_type_specification]
#[verifier::external_body]
pub struct ExThreadRng(ThreadRng);

/// `rand::thread_rng`: the handle of the calling thread's generator, which
/// the system seeds on first use. Nothing is claimed of the handle. Where
/// the system has no seed to give, the call panics.
pub assume_specification[ rand::thread_rng ]() -> ThreadRng
;

/// One roll of a die with `sides` faces: `Rng::gen_range` on the range
/// from one to `sides`, both included. The range is not empty, so the call
/// does not panic, and what it returns lies in the range. Which face comes
/// is left open, and so is the state of the generator afterwards.
#[verifier::external_body]
pub(crate) fn roll(rng: &mut ThreadRng, sides: i64) -> (face: i64)
    requires
        1 <= sides,
    ensures
        1 <= face <= sides,
{
    rng.gen_range(1..=sides)
}

} // verus!
