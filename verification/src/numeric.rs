//! Arithmetic on float literals, which the tree keeps as IEEE-754
//! binary64 bit patterns. The rounding arithmetic itself is done by
//! the `rustc_apfloat` soft-float library behind trusted wrappers;
//! negation is a pure sign-bit flip and is verified directly.

use vstd::prelude::*;
use rustc_apfloat::Float;
use rustc_apfloat::ieee::Double;

verus! {

/// The sign bit of an IEEE-754 binary64 bit pattern. Negating a
/// binary64 value flips exactly this bit.
pub const F64_SIGN_BIT: u64 = 0x8000_0000_0000_0000;

/// The bit pattern of the binary64 sum of two bit patterns, rounding
/// to nearest even.
pub uninterp spec fn f64_add(a: u64, b: u64) -> u64;

/// The bit pattern of the binary64 difference of two bit patterns.
pub uninterp spec fn f64_sub(a: u64, b: u64) -> u64;

/// The bit pattern of the binary64 product of two bit patterns.
pub uninterp spec fn f64_mul(a: u64, b: u64) -> u64;

/// The bit pattern of the binary64 value nearest to the given integer.
pub uninterp spec fn f64_of_i64(v: i64) -> u64;

/// Relies on rustc_apfloat::ieee::Double's `Add` impl: IEEE-754
/// binary64 addition on bit patterns, round to nearest even, a
/// function of the two operands alone.
#[verifier::external_body]
pub fn add_bits(a: u64, b: u64) -> (r: u64)
    ensures
        r == f64_add(a, b),
{
    let x = Double::from_bits(a as u128);
    let y = Double::from_bits(b as u128);
    (x + y).value.to_bits() as u64
}

/// Relies on rustc_apfloat::ieee::Double's `Sub` impl: IEEE-754
/// binary64 subtraction on bit patterns, round to nearest even, a
/// function of the two operands alone.
#[verifier::external_body]
pub fn sub_bits(a: u64, b: u64) -> (r: u64)
    ensures
        r == f64_sub(a, b),
{
    let x = Double::from_bits(a as u128);
    let y = Double::from_bits(b as u128);
    (x - y).value.to_bits() as u64
}

/// Relies on rustc_apfloat::ieee::Double's `Mul` impl: IEEE-754
/// binary64 multiplication on bit patterns, round to nearest even, a
/// function of the two operands alone.
#[verifier::external_body]
pub fn mul_bits(a: u64, b: u64) -> (r: u64)
    ensures
        r == f64_mul(a, b),
{
    let x = Double::from_bits(a as u128);
    let y = Double::from_bits(b as u128);
    (x * y).value.to_bits() as u64
}

/// Relies on rustc_apfloat::Float::from_i128: the binary64 value
/// nearest to the integer (round to nearest even), a function of the
/// integer alone.
#[verifier::external_body]
pub fn i64_to_bits(v: i64) -> (r: u64)
    ensures
        r == f64_of_i64(v),
{
    Double::from_i128(v as i128).value.to_bits() as u64
}

/// The negated binary64 bit pattern: the sign bit flipped.
pub fn neg_bits(a: u64) -> (r: u64)
    ensures
        r == (a ^ F64_SIGN_BIT),
{
    a ^ F64_SIGN_BIT
}

} // verus!
