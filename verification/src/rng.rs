//! The pseudo-random source: rand's standard generator behind two trusted
//! wrappers, and a verified draw of a fixed-point fraction in `[0, 1)`.
//!
//! The generator is passed explicitly wherever sampling happens, so a run
//! seeded the same way draws the same sequence.

use vstd::prelude::*;

use crate::fixed::SCALE;

verus! {

#[verifier::external_type_specification]
#[verifier::external_body]
pub struct ExStdRng(rand::rngs::StdRng);

/// Relies on rand's `RngCore::next_u64` for `StdRng`: the next draw of the
/// stream; nothing is promised of the value.
#[verifier::external_body]
pub fn rng_next(rng: &mut rand::rngs::StdRng) -> (r: u64) {
    rand::RngCore::next_u64(rng)
}

/// The low fraction bits of one draw: a fixed-point value in `[0, 1)`.
pub fn next_unit_fraction(rng: &mut rand::rngs::StdRng) -> (r: i128)
    ensures
        0 <= r < SCALE,
{
    let bits = rng_next(rng);
    let masked: u64 = bits & 0xFFFFFFu64;
    proof {
        assert(bits & 0xFFFFFFu64 < 16777216u64) by (bit_vector);
    }
    masked as i128
}

} // verus!
