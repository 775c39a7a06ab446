//! Random level sampling for the index.
//!
//! The generator comes from the rand crate; the index draws independent
//! fair coin flips from it and assumes nothing about their outcomes.

use rand::rngs::SmallRng;
use rand::{Rng, SeedableRng};

use vstd::prelude::*;

verus! {

#[verifier::external_type_specification]
#[verifier::external_body]
pub struct ExSmallRng(SmallRng);

/// Relies on `SmallRng::seed_from_u64`: builds the small, fast PRNG from a
/// 64-bit seed.
#[verifier::external_body]
pub(crate) fn new_rng(seed: u64) -> SmallRng {
    SmallRng::seed_from_u64(seed)
}

/// Relies on `Rng::gen::<bool>`: one fair draw from the generator (the
/// standard distribution on `bool` tests the next output's top bit).
/// Nothing is assumed of the outcome.
#[verifier::external_body]
pub(crate) fn coin_flip(rng: &mut SmallRng) -> bool {
    rng.gen()
}

} // verus!
