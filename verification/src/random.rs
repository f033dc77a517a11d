//! The source of randomness for laying out a board.

use rand::rngs::ThreadRng;
use rand::Rng;
use vstd::prelude::*;

verus! {

/// `rand::rngs::ThreadRng`, the random number generator of a thread.
/// Nothing of its inside is known here.
#[verifier::external_type_specification]
#[verifier::external_body]
pub struct ExThreadRng(ThreadRng);

/// `rand::thread_rng`: the generator of the current thread. Nothing is
/// claimed of it. The call panics where the system gives no randomness to
/// seed it with.
pub assume_specification[ rand::thread_rng ]() -> (rng: ThreadRng)
;

/// `Rng::gen_range` from zero: some index below `bound`. Which one is left
/// open. The call panics on an empty range, so `bound` must be positive.
#[verifier::external_body]
pub(crate) fn random_below(rng: &mut ThreadRng, bound: usize) -> (pick: usize)
    requires
        bound > 0,
    ensures
        pick < bound,
{
    rng.gen_range(0, bound)
}

} // verus!
