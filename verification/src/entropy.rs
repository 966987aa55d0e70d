//! The sources of randomness that the library draws on. Nothing here is
//! proved: each function states only what holds of every outcome.

use vstd::prelude::*;

verus! {

/// Draws a fresh random 128-bit identifier.
///
/// Calls `uuid::Uuid::new_v4` and hands its value back as an integer
/// (`Uuid::as_u128`). The value is random, so nothing is claimed of it.
#[verifier::external_body]
pub(crate) fn random_id() -> (id: u128) {
    uuid::Uuid::new_v4().as_u128()
}

/// Draws a random index below `bound`.
///
/// Calls `rand::Rng::gen_range` on the thread's generator with the range
/// `0..bound`. That call panics on an empty range, which `requires` rules
/// out, and returns a value inside the range.
#[verifier::external_body]
pub(crate) fn random_index(bound: usize) -> (index: usize)
    requires
        bound > 0,
    ensures
        index < bound,
{
    rand::Rng::gen_range(&mut rand::thread_rng(), 0..bound)
}

/// Rearranges `items` in place at random.
///
/// Calls `rand::seq::SliceRandom::shuffle` on the thread's generator. The
/// shuffle only swaps elements, so afterwards the vector holds the same
/// elements, each as often as before; in which order is not claimed.
#[verifier::external_body]
pub(crate) fn shuffle(items: &mut Vec<u128>)
    ensures
        final(items)@.to_multiset() == old(items)@.to_multiset(),
{
    rand::seq::SliceRandom::shuffle(items.as_mut_slice(), &mut rand::thread_rng());
}

} // verus!
