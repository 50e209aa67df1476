//! Random numbers from the `rand` crate.

use rand::rngs::ThreadRng;
use rand::Rng;
use vstd::prelude::*;

verus! {

/// The thread-local random number generator of the `rand` crate. Its state
/// is not modelled: nothing is known of the numbers that it will hand out.
#[verifier::external_type_specification]
#[verifier::external_body]
pub struct ExThreadRng(ThreadRng);

/// `rand::thread_rng` hands out the generator of the current thread. Nothing
/// is claimed of the generator. The call panics if the operating system
/// cannot seed the generator of a thread that has none yet, which no argument can prevent.
pub assume_specification[ rand::thread_rng ]() -> (rng: ThreadRng)
;

/// Calls `Rng::gen_range` of the `rand` crate with the inclusive range
/// `low..=high`. The crate samples a value of that range, so the result lies
/// between the two bounds; which value it is depends on chance. An empty
/// range makes the crate panic and is excluded. The call also panics if the
/// generator is due for new seed and the operating system has none to give,
/// which no argument can prevent.
#[verifier::external_body]
pub(crate) fn gen_range_inclusive(rng: &mut ThreadRng, low: u32, high: u32) -> (value: u32)
    requires
        low <= high,
    ensures
        low <= value <= high,
{
    rng.gen_range(low..=high)
}

} // verus!
