//! Trusted rounding arithmetic on binary32 bit patterns.
//!
//! Every arithmetic step of the engine — squaring and summing components,
//! taking the square root of the norm, dividing it out, multiplying by
//! the inverse norm — is a correctly rounded binary32 operation. Those
//! roundings are performed by a software implementation of the standard
//! operating directly on bit patterns, behind the four wrappers below.
//! Each result is a function of the argument bits alone, so each is given
//! a name here; everything the library proves about scores and rows is
//! stated over these names.

use vstd::prelude::*;
use rustc_apfloat::Float;

verus! {

/// The correctly rounded (to nearest, ties to even) binary32 sum of the
/// values denoted by two bit patterns.
pub uninterp spec fn add_bits(a: u32, b: u32) -> u32;

/// The correctly rounded binary32 product of two bit patterns.
pub uninterp spec fn mul_bits(a: u32, b: u32) -> u32;

/// The correctly rounded binary32 quotient of two bit patterns.
pub uninterp spec fn div_bits(a: u32, b: u32) -> u32;

/// The correctly rounded binary32 square root of a bit pattern.
pub uninterp spec fn sqrt_bits(a: u32) -> u32;

/// Relies on `rustc_apfloat::ieee::Single::add_r`: the correctly rounded
/// binary32 sum, computed from the argument bits alone.
#[verifier::external_body]
pub(crate) fn add32(a: u32, b: u32) -> (r: u32)
    ensures
        r == add_bits(a, b),
{
    let x = rustc_apfloat::ieee::Single::from_bits(a as u128);
    let y = rustc_apfloat::ieee::Single::from_bits(b as u128);
    x.add_r(y, rustc_apfloat::Round::NearestTiesToEven).value.to_bits() as u32
}

/// Relies on `rustc_apfloat::ieee::Single::mul_r`: the correctly rounded
/// binary32 product, computed from the argument bits alone.
#[verifier::external_body]
pub(crate) fn mul32(a: u32, b: u32) -> (r: u32)
    ensures
        r == mul_bits(a, b),
{
    let x = rustc_apfloat::ieee::Single::from_bits(a as u128);
    let y = rustc_apfloat::ieee::Single::from_bits(b as u128);
    x.mul_r(y, rustc_apfloat::Round::NearestTiesToEven).value.to_bits() as u32
}

/// Relies on `rustc_apfloat::ieee::Single::div_r`: the correctly rounded
/// binary32 quotient, computed from the argument bits alone.
#[verifier::external_body]
pub(crate) fn div32(a: u32, b: u32) -> (r: u32)
    ensures
        r == div_bits(a, b),
{
    let x = rustc_apfloat::ieee::Single::from_bits(a as u128);
    let y = rustc_apfloat::ieee::Single::from_bits(b as u128);
    x.div_r(y, rustc_apfloat::Round::NearestTiesToEven).value.to_bits() as u32
}

/// Relies on `ieee_apsqrt::sqrt_accurate`: the correctly rounded binary32
/// square root of a bit pattern, computed from the argument bits alone.
#[verifier::external_body]
pub(crate) fn sqrt32(a: u32) -> (r: u32)
    ensures
        r == sqrt_bits(a),
{
    ieee_apsqrt::sqrt_accurate(a, rustc_apfloat::Round::NearestTiesToEven).0.value
}

} // verus!
