//! The randomness source.
//!
//! Every constructive or mutating operation takes an explicit `StdRng`, so
//! runs are seed-reproducible. Integer sampling comes from `rand` behind
//! trusted wrappers; scalar sampling is built on top of it in verified code
//! from the `fp32` primitives.

use crate::fp32::{f32_add, f32_mul, f32_of_u24, SIGN_BIT, TWO_BITS, TWO_POW_NEG24_BITS};
use rand::rngs::StdRng;
use rand::Rng;
use vstd::prelude::*;

verus! {

#[verifier::external_type_specification]
#[verifier::external_body]
pub struct ExStdRng(StdRng);

/// Relies on rand::Rng::gen_range over `lo..=hi`: the sample lies in that
/// inclusive range, which is non-empty by the precondition.
#[verifier::external_body]
pub(crate) fn rand_range_usize(rng: &mut StdRng, lo: usize, hi: usize) -> (r: usize)
    requires
        lo <= hi,
    ensures
        lo <= r <= hi,
{
    rng.gen_range(lo..=hi)
}

/// Relies on rand::Rng::gen_range over `0..2^24`: the sample is below 2^24.
#[verifier::external_body]
pub(crate) fn rand_below_2_24(rng: &mut StdRng) -> (r: u32)
    ensures
        r < 0x0100_0000,
{
    rng.gen_range(0u32..0x0100_0000u32)
}

/// One sample from the unit interval: a multiple of 2^-24 in [0, 1).
///
/// The product of two non-negative finite patterns is non-negative, so the
/// sign-bit mask leaves the run-time value as it was; it records the sign
/// structurally, which callers rely on when a gate probability is exactly
/// +0.0.
pub fn rand_unit(rng: &mut StdRng) -> (r: u32)
    ensures
        r & SIGN_BIT == 0,
{
    let k = rand_below_2_24(rng);
    let u = f32_mul(f32_of_u24(k), TWO_POW_NEG24_BITS);
    let masked = u & 0x7FFF_FFFF;
    proof {
        assert((u & 0x7FFF_FFFFu32) & 0x8000_0000u32 == 0u32) by (bit_vector);
    }
    masked
}

/// One freshly initialised scalar: a value in [-scale, scale), built as
/// `(-scale) + (2 * scale) * u` with `u` uniform on the unit interval.
/// IEEE negation is a sign flip, and both the widening by 2 and the final
/// affine map are exact for the scales in use.
pub fn rand_scalar(rng: &mut StdRng, scale: u32) -> u32 {
    let u = rand_unit(rng);
    let lo = scale ^ SIGN_BIT;
    let width = f32_mul(TWO_BITS, scale);
    f32_add(lo, f32_mul(width, u))
}

} // verus!
