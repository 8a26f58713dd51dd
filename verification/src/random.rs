//! The random source. Everything here is a thin binding to the `rand`
//! crate; the contracts are taken on trust from its source and say only
//! what holds of every outcome.

use rand::rngs::ThreadRng;
use rand::seq::SliceRandom;
use rand::Rng;
use vstd::prelude::*;

verus! {

/// `rand::rngs::ThreadRng`, the handle to the thread-local generator.
/// Nothing of its state is visible to specifications.
#[verifier::external_type_specification]
#[verifier::external_body]
pub struct ExThreadRng(ThreadRng);

/// `rand::rng`: hands out the thread-local generator. Nothing is claimed
/// of the handle. The crate panics here if the operating system cannot
/// seed the generator; no argument of ours can cause or prevent that.
pub assume_specification[ rand::rng ]() -> ThreadRng;

/// `Rng::random_range` on an inclusive `u32` range. The crate rejects an
/// empty range by panicking, hence the precondition; for a non-empty one
/// the sample lies within the bounds, both included. Which value comes
/// back is left open.
#[verifier::external_body]
pub(crate) fn draw_inclusive(rng: &mut ThreadRng, low: u32, high: u32) -> (drawn: u32)
    requires
        low <= high,
    ensures
        low <= drawn <= high,
{
    rng.random_range(low..=high)
}

/// `SliceRandom::shuffle` on the vector's slice. The crate permutes the
/// slice in place by swaps, so the elements after the call are those
/// before it, each as often as before. Their order is left open.
#[verifier::external_body]
pub(crate) fn shuffle<T>(items: &mut Vec<T>, rng: &mut ThreadRng)
    ensures
        final(items)@.to_multiset() == old(items)@.to_multiset(),
{
    items.shuffle(rng)
}

} // verus!
