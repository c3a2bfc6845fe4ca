//! Randomness: a seeded ChaCha stream and the mapping of raw draws into
//! ranges.
//!
//! The generator is an explicit dependency threaded through the simulation,
//! so a fixed seed and a fixed draw order replay a composition exactly.

use vstd::prelude::*;
use rand_chacha::rand_core::{RngCore, SeedableRng};

verus! {

#[verifier::external_type_specification]
#[verifier::external_body]
pub struct ExChaCha8Rng(rand_chacha::ChaCha8Rng);

/// Relies on rand_core::SeedableRng::seed_from_u64 for ChaCha8Rng: builds a
/// generator whose stream is a fixed function of the seed.
#[verifier::external_body]
pub(crate) fn rng_from_seed(seed: u64) -> rand_chacha::ChaCha8Rng {
    rand_chacha::ChaCha8Rng::seed_from_u64(seed)
}

/// Relies on rand_core::RngCore::next_u32 for ChaCha8Rng: yields the stream's
/// next draw. Nothing is promised of the value; callers must hold for every
/// outcome.
#[verifier::external_body]
pub(crate) fn next_u32(rng: &mut rand_chacha::ChaCha8Rng) -> u32 {
    rng.next_u32()
}

/// Where a raw 32-bit draw of `value` lands in `[out_min, out_max]`: the
/// linear map of `[0, u32::MAX]` onto the range, truncated.
pub open spec fn spec_map_rng_range(value: int, out_min: int, out_max: int) -> int {
    out_min + value * (out_max - out_min) / 0xffff_ffff
}

/// Map a raw 32-bit draw onto `[out_min, out_max]` linearly, the full `u32`
/// range covering the whole interval.
pub fn map_rng_range(value: u32, out_min: i64, out_max: i64) -> (r: i64)
    requires
        out_min <= out_max,
        out_max - out_min <= 0x4000_0000,
    ensures
        r == spec_map_rng_range(value as int, out_min as int, out_max as int),
        out_min <= r <= out_max,
{
    let span: i64 = out_max - out_min;
    proof {
        assert((value as int) * (span as int) <= 0x4000_0000_0000_0000) by (nonlinear_arith)
            requires
                0 <= value as int <= 0xffff_ffff,
                0 <= span as int <= 0x4000_0000,
        ;
    }
    let scaled: i64 = (value as i64) * span / 0xffff_ffff;
    proof {
        vstd::arithmetic::mul::lemma_mul_nonnegative(value as int, span as int);
        vstd::arithmetic::div_mod::lemma_div_pos_is_pos(value as int * span as int, 0xffff_ffff);
        vstd::arithmetic::mul::lemma_mul_inequality(value as int, 0xffff_ffff, span as int);
        vstd::arithmetic::div_mod::lemma_div_is_ordered(
            value as int * span as int,
            0xffff_ffff * span as int,
            0xffff_ffff,
        );
        vstd::arithmetic::div_mod::lemma_div_multiples_vanish(span as int, 0xffff_ffff);
        vstd::arithmetic::mul::lemma_mul_is_commutative(value as int, span as int);
        vstd::arithmetic::mul::lemma_mul_is_commutative(0xffff_ffff, span as int);
    }
    out_min + scaled
}

} // verus!
