//! The pseudo-random generator behind fresh identifiers and turn orders.
//!
//! Everything here is trusted: the generator is `rand`'s `SmallRng`, and
//! Verus believes the contracts below without reading the bodies. A draw gets
//! no contract beyond its type, so whatever the engine proves holds for every
//! value the generator may produce.

use rand::rngs::SmallRng;
use rand::seq::SliceRandom;
use rand::RngCore;
use rand::SeedableRng;
use vstd::prelude::*;

verus! {

/// `rand::rngs::SmallRng`, carried through as an opaque value.
#[verifier::external_type_specification]
#[verifier::external_body]
pub struct ExSmallRng(SmallRng);

/// Calls `SmallRng::seed_from_u64`, which expands the seed into a generator
/// state and cannot fail. Nothing is claimed about the state.
#[verifier::external_body]
pub(crate) fn seeded_rng(seed: u64) -> SmallRng {
    SmallRng::seed_from_u64(seed)
}

/// Calls `RngCore::next_u64` on the generator. Nothing is claimed about the
/// number drawn.
#[verifier::external_body]
pub(crate) fn next_id(rng: &mut SmallRng) -> u64 {
    rng.next_u64()
}

/// Calls `SliceRandom::shuffle` on the vector's slice. The shuffle only swaps
/// elements, so the vector afterwards holds the same ids, each as often as
/// before; which arrangement comes out is left open.
#[verifier::external_body]
pub(crate) fn shuffle_ids(ids: &mut Vec<u64>, rng: &mut SmallRng)
    ensures
        final(ids)@.to_multiset() == old(ids)@.to_multiset(),
{
    ids.shuffle(rng)
}

} // verus!
