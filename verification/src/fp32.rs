//! IEEE-754 single-precision arithmetic on raw bit patterns.
//!
//! A network scalar is a `u32` holding the bits of a single-precision value.
//! Each arithmetic primitive is a trusted wrapper around `rustc_apfloat`,
//! whose result is named by an uninterpreted spec function of the operand
//! bits; contracts elsewhere in the crate speak of those names exactly.

use rustc_apfloat::Float;
use vstd::prelude::*;

verus! {

/// Bit pattern of +0.5.
pub const HALF_BITS: u32 = 0x3F00_0000;

/// Bit pattern of +0.25.
pub const QUARTER_BITS: u32 = 0x3E80_0000;

/// Bit pattern of +2.0.
pub const TWO_BITS: u32 = 0x4000_0000;

/// Bit pattern of +0.1, the initialisation scale used throughout.
pub const TENTH_BITS: u32 = 0x3DCC_CCCD;

/// Bit pattern of +2^-24.
pub const TWO_POW_NEG24_BITS: u32 = 0x3380_0000;

/// The sign bit of a single-precision pattern.
pub const SIGN_BIT: u32 = 0x8000_0000;

pub uninterp spec fn add_bits(a: u32, b: u32) -> u32;

pub uninterp spec fn mul_bits(a: u32, b: u32) -> u32;

pub uninterp spec fn lt_bits(a: u32, b: u32) -> bool;

pub uninterp spec fn of_u24_bits(k: u32) -> u32;

/// Relies on rustc_apfloat::ieee::Single::add_r: addition with
/// round-to-nearest-even is a pure function of the two operand patterns.
#[verifier::external_body]
pub(crate) fn f32_add(a: u32, b: u32) -> (r: u32)
    ensures
        r == add_bits(a, b),
{
    let x = rustc_apfloat::ieee::Single::from_bits(a as u128);
    let y = rustc_apfloat::ieee::Single::from_bits(b as u128);
    x.add_r(y, rustc_apfloat::Round::NearestTiesToEven).value.to_bits() as u32
}

/// Relies on rustc_apfloat::ieee::Single::mul_r: multiplication with
/// round-to-nearest-even is a pure function of the two operand patterns.
#[verifier::external_body]
pub(crate) fn f32_mul(a: u32, b: u32) -> (r: u32)
    ensures
        r == mul_bits(a, b),
{
    let x = rustc_apfloat::ieee::Single::from_bits(a as u128);
    let y = rustc_apfloat::ieee::Single::from_bits(b as u128);
    x.mul_r(y, rustc_apfloat::Round::NearestTiesToEven).value.to_bits() as u32
}

/// Relies on rustc_apfloat::ieee::Single's PartialOrd: `<` is the IEEE-754
/// ordering, a pure function of the two operand patterns. A NaN compares
/// less than nothing, and a pattern whose sign bit is clear is a NaN or a
/// value of at least +0.0, so it is never less than +0.0.
#[verifier::external_body]
pub(crate) fn f32_lt(a: u32, b: u32) -> (r: bool)
    ensures
        r == lt_bits(a, b),
        a & SIGN_BIT == 0 && b == 0 ==> !r,
{
    let x = rustc_apfloat::ieee::Single::from_bits(a as u128);
    let y = rustc_apfloat::ieee::Single::from_bits(b as u128);
    x < y
}

/// Relies on rustc_apfloat::ieee::Single::from_u128_r: conversion of an
/// unsigned integer is a pure function of that integer.
#[verifier::external_body]
pub(crate) fn f32_of_u24(k: u32) -> (r: u32)
    ensures
        r == of_u24_bits(k),
{
    rustc_apfloat::ieee::Single::from_u128_r(
        k as u128,
        rustc_apfloat::Round::NearestTiesToEven,
    ).value.to_bits() as u32
}

/// The blended value of two parents' scalars: the IEEE mean `0.5 * (a + b)`.
pub open spec fn avg_bits(a: u32, b: u32) -> u32 {
    mul_bits(HALF_BITS, add_bits(a, b))
}

pub fn f32_avg(a: u32, b: u32) -> (r: u32)
    ensures
        r == avg_bits(a, b),
{
    f32_mul(HALF_BITS, f32_add(a, b))
}

/// A rectified scalar: a pre-activation below +0.0 collapses to exactly
/// +0.0; every other pattern passes through unchanged.
pub open spec fn relu_bits(a: u32) -> u32 {
    if lt_bits(a, 0u32) {
        0u32
    } else {
        a
    }
}

pub fn f32_relu(a: u32) -> (r: u32)
    ensures
        r == relu_bits(a),
{
    if f32_lt(a, 0) {
        0
    } else {
        a
    }
}

/// Rectification at the boundary: a pre-activation below +0.0 becomes
/// exactly +0.0, and any other pre-activation is passed through unchanged.
pub proof fn lemma_relu_boundary(a: u32)
    ensures
        lt_bits(a, 0u32) ==> relu_bits(a) == 0u32,
        !lt_bits(a, 0u32) ==> relu_bits(a) == a,
{
}

} // verus!
