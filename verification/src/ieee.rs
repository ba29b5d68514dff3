use vstd::prelude::*;
use rustc_apfloat::Float;
use rustc_apfloat::Round;
use rustc_apfloat::ieee::Single;

verus! {

/// What IEEE-754 single-precision addition, rounding to nearest with ties
/// to even, returns for the two operand bit patterns.
pub uninterp spec fn add_bits(a: u32, b: u32) -> u32;

/// What IEEE-754 single-precision subtraction, rounding to nearest with
/// ties to even, returns for the two operand bit patterns.
pub uninterp spec fn sub_bits(a: u32, b: u32) -> u32;

/// What IEEE-754 single-precision multiplication, rounding to nearest with
/// ties to even, returns for the two operand bit patterns.
pub uninterp spec fn mul_bits(a: u32, b: u32) -> u32;

/// What IEEE-754 single-precision division, rounding to nearest with ties
/// to even, returns for the two operand bit patterns.
pub uninterp spec fn div_bits(a: u32, b: u32) -> u32;

/// The bit pattern of the IEEE-754 single nearest to the given integer.
pub uninterp spec fn float_of_usize(n: usize) -> u32;

/// The bit patterns of the positive finite IEEE-754 singles: everything
/// above +0.0 and below +infinity.  Positive singles order like their bit
/// patterns, so the comparison is exact.
pub open spec fn is_positive_finite_bits(a: u32) -> bool {
    0 < a && a < 0x7F80_0000u32
}

/// Relies on rustc_apfloat::ieee::Single::add_r: IEEE-754 single-precision
/// addition of the two operand bit patterns, rounding to nearest with ties
/// to even; the result depends on the operand bits alone.  Adding two
/// like-signed zeros gives that zero, so +0.0 plus +0.0 is +0.0.
#[verifier::external_body]
pub(crate) fn ieee_add(a: u32, b: u32) -> (r: u32)
    ensures
        r == add_bits(a, b),
        a == 0u32 && b == 0u32 ==> r == 0u32,
{
    let x = Single::from_bits(a as u128);
    let y = Single::from_bits(b as u128);
    x.add_r(y, Round::NearestTiesToEven).value.to_bits() as u32
}

/// Relies on rustc_apfloat::ieee::Single::sub_r: IEEE-754 single-precision
/// subtraction of the two operand bit patterns, rounding to nearest with
/// ties to even; the result depends on the operand bits alone.
#[verifier::external_body]
pub(crate) fn ieee_sub(a: u32, b: u32) -> (r: u32)
    ensures
        r == sub_bits(a, b),
{
    let x = Single::from_bits(a as u128);
    let y = Single::from_bits(b as u128);
    x.sub_r(y, Round::NearestTiesToEven).value.to_bits() as u32
}

/// Relies on rustc_apfloat::ieee::Single::mul_r: IEEE-754 single-precision
/// multiplication of the two operand bit patterns, rounding to nearest with
/// ties to even; the result depends on the operand bits alone.  A zero
/// times a zero is the zero of the product's sign, so +0.0 times +0.0 is
/// +0.0.
#[verifier::external_body]
pub(crate) fn ieee_mul(a: u32, b: u32) -> (r: u32)
    ensures
        r == mul_bits(a, b),
        a == 0u32 && b == 0u32 ==> r == 0u32,
{
    let x = Single::from_bits(a as u128);
    let y = Single::from_bits(b as u128);
    x.mul_r(y, Round::NearestTiesToEven).value.to_bits() as u32
}

/// Relies on rustc_apfloat::ieee::Single::div_r: IEEE-754 single-precision
/// division of the two operand bit patterns, rounding to nearest with ties
/// to even; the result depends on the operand bits alone.
#[verifier::external_body]
pub(crate) fn ieee_div(a: u32, b: u32) -> (r: u32)
    ensures
        r == div_bits(a, b),
{
    let x = Single::from_bits(a as u128);
    let y = Single::from_bits(b as u128);
    x.div_r(y, Round::NearestTiesToEven).value.to_bits() as u32
}

/// Relies on rustc_apfloat::ieee::Single::from_u128: the IEEE-754 single
/// nearest to the given integer, rounding to nearest with ties to even; the
/// result depends on the integer alone.
#[verifier::external_body]
pub(crate) fn ieee_of_usize(n: usize) -> (r: u32)
    ensures
        r == float_of_usize(n),
{
    Single::from_u128(n as u128).value.to_bits() as u32
}

} // verus!
