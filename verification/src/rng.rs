//! The injected random-number source: rand's standard generator, consumed
//! one 32-bit draw at a time.

use vstd::prelude::*;

verus! {

/// rand's standard pseudo-random generator, seedable by the caller.
#[verifier::external_type_specification]
#[verifier::external_body]
pub struct ExStdRng(rand::rngs::StdRng);

/// Relies on rand's `Rng::next_u32` for `StdRng`: returns the next 32 bits
/// of the pseudo-random stream.  Nothing is promised of the value; callers
/// must cope with every outcome.
#[verifier::external_body]
pub fn next_random_u32(rng: &mut rand::rngs::StdRng) -> u32 {
    rand::Rng::next_u32(rng)
}

} // verus!
