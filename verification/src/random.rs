//! Trusted wrappers around the `rand` crate: the only places where this
//! library consumes randomness.

use vstd::prelude::*;

use crate::tiles::Tile;
use rand::seq::SliceRandom;
use rand::Rng;
use rand::SeedableRng;

verus! {

#[verifier::external_type_specification]
#[verifier::external_body]
pub struct ExStdRng(rand::rngs::StdRng);

#[verifier::external_type_specification]
#[verifier::external_body]
pub struct ExThreadRng(rand::rngs::ThreadRng);

/// Relies on rand::SeedableRng::seed_from_u64: builds a generator from the
/// given seed.  Nothing is promised of the stream it produces.
#[verifier::external_body]
pub(crate) fn seeded_rng(seed: u64) -> rand::rngs::StdRng {
    rand::rngs::StdRng::seed_from_u64(seed)
}

/// Relies on rand::thread_rng: hands out the thread-local generator.
/// Nothing is promised of the stream it produces.
#[verifier::external_body]
pub(crate) fn thread_rng_handle() -> rand::rngs::ThreadRng {
    rand::thread_rng()
}

/// Relies on rand::seq::SliceRandom::shuffle: a Fisher-Yates pass permutes
/// the slice in place by swaps, so afterwards it holds exactly the same
/// tiles, whatever order the generator chose.
#[verifier::external_body]
pub(crate) fn shuffle_tiles(tiles: &mut Vec<Tile>, rng: &mut rand::rngs::StdRng)
    ensures
        final(tiles)@.to_multiset() == old(tiles)@.to_multiset(),
        final(tiles)@.len() == old(tiles)@.len(),
{
    tiles.shuffle(rng);
}

/// Relies on rand::Rng::gen_range over `0..bound`: the sample always lies
/// in the requested range, and the range is non-empty by the precondition.
#[verifier::external_body]
pub(crate) fn random_below(rng: &mut rand::rngs::ThreadRng, bound: usize) -> (r: usize)
    requires
        bound > 0,
    ensures
        r < bound,
{
    rng.gen_range(0..bound)
}

} // verus!
