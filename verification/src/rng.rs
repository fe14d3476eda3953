//! Random scalars, drawn from rand's standard generator.
//!
//! The generator is opaque: nothing is assumed about the bits it returns, so
//! every function that consumes them states only what holds of every outcome.

use vstd::prelude::*;

verus! {

/// rand's standard pseudo-random generator, opaque to verification.
#[verifier::external_type_specification]
#[verifier::external_body]
pub struct ExStdRng(rand::rngs::StdRng);

/// Relies on rand's `StdRng::seed_from_u64`: builds a deterministic
/// generator from a 64-bit seed.
#[verifier::external_body]
pub fn rng_from_seed(seed: u64) -> rand::rngs::StdRng {
    <rand::rngs::StdRng as rand::SeedableRng>::seed_from_u64(seed)
}

/// Relies on rand's `Rng::next_u64`: returns the generator's next 64
/// random bits.
#[verifier::external_body]
pub fn rng_next_bits(rng: &mut rand::rngs::StdRng) -> u64 {
    rand::Rng::next_u64(rng)
}

/// A scalar drawn from `[min, max)` by reducing the next 64 random bits
/// modulo the span (close to uniform; spans that do not divide `2^64` keep
/// a small modulo bias). An empty span yields `min` itself.
pub fn random_fixed(rng: &mut rand::rngs::StdRng, min: i64, max: i64) -> (r: i64)
    requires
        -0x1000_0000_0000_0000 <= min <= max <= 0x1000_0000_0000_0000,
    ensures
        min <= r <= max,
        min < max ==> r < max,
        min == max ==> r == min,
{
    if min == max {
        return min;
    }
    let span: u64 = (max - min) as u64;
    let bits: u64 = rng_next_bits(rng);
    min + (bits % span) as i64
}

} // verus!
