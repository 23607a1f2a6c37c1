//! The seeded random source the randomized board generator draws from.
//!
//! The stream itself belongs to the surrounding application; the engine only
//! consumes it, one boolean draw per cell, through the wrapper below.

use rand::Rng;
use vstd::prelude::*;

verus! {

#[verifier::external_type_specification]
#[verifier::external_body]
pub struct ExStdRng(rand::rngs::StdRng);

/// Relies on rand's `Rng::gen::<bool>`: advances the seeded stream by one
/// draw and returns it.  Nothing is assumed about the outcome; callers must
/// hold for either answer.
#[verifier::external_body]
pub(crate) fn random_bool(rng: &mut rand::rngs::StdRng) -> bool {
    rng.gen()
}

} // verus!
