//! Floating-point numbers as their IEEE 754 bit patterns.
//!
//! The writer never computes with machine floating point. It orders the
//! numbers by their bit patterns, which this module does and proves, and for
//! sums, quotients and products it calls a software implementation of IEEE
//! 754 arithmetic, whose results are taken on trust and only named here.
use rustc_apfloat::ieee::{Double, Single};
use rustc_apfloat::{Float, FloatConvert};
use vstd::prelude::*;

verus! {

/// The bit pattern of the sum of two double-precision numbers, rounded to
/// nearest with ties to even.
pub uninterp spec fn double_sum(a: u64, b: u64) -> u64;

/// The bit pattern of the double-precision number that a single-precision
/// number becomes when widened.
pub uninterp spec fn float_to_double(a: u32) -> u64;

/// The bit pattern of the single-precision number nearest to an unsigned
/// integer.
pub uninterp spec fn single_of_count(n: u32) -> u32;

/// The bit pattern of the quotient of two single-precision numbers, rounded
/// to nearest with ties to even.
pub uninterp spec fn single_quotient(a: u32, b: u32) -> u32;

/// The bit pattern of the product of two single-precision numbers, rounded
/// to nearest with ties to even.
pub uninterp spec fn single_product(a: u32, b: u32) -> u32;

/// The unsigned 32-bit integer that a single-precision number becomes when
/// its fraction is cut off.
pub uninterp spec fn single_truncated(a: u32) -> u32;

/// Calls `rustc_apfloat`'s addition on `ieee::Double`, which rounds to
/// nearest with ties to even. The contract claims only that the sum is a
/// function of the two bit patterns.
#[verifier::external_body]
pub(crate) fn add_doubles(a: u64, b: u64) -> (sum: u64)
    ensures
        sum == double_sum(a, b),
{
    let total = Double::from_bits(a as u128) + Double::from_bits(b as u128);
    total.value.to_bits() as u64
}

/// Calls `rustc_apfloat`'s `FloatConvert::convert` from `ieee::Single` to
/// `ieee::Double`. The contract claims only that the result is a function
/// of the bit pattern.
#[verifier::external_body]
pub(crate) fn widen_float(a: u32) -> (wide: u64)
    ensures
        wide == float_to_double(a),
{
    let mut loses_info = false;
    let wide: Double = Single::from_bits(a as u128).convert(&mut loses_info).value;
    wide.to_bits() as u64
}

/// Calls `rustc_apfloat`'s `Float::from_u128` on `ieee::Single`, which
/// rounds to nearest with ties to even. The contract claims only that the
/// result is a function of the integer.
#[verifier::external_body]
pub(crate) fn single_from_count(n: u32) -> (single: u32)
    ensures
        single == single_of_count(n),
{
    Single::from_u128(n as u128).value.to_bits() as u32
}

/// Calls `rustc_apfloat`'s division on `ieee::Single`, which rounds to
/// nearest with ties to even. The contract claims only that the quotient is
/// a function of the two bit patterns.
#[verifier::external_body]
pub(crate) fn divide_singles(a: u32, b: u32) -> (quotient: u32)
    ensures
        quotient == single_quotient(a, b),
{
    let quotient = Single::from_bits(a as u128) / Single::from_bits(b as u128);
    quotient.value.to_bits() as u32
}

/// Calls `rustc_apfloat`'s multiplication on `ieee::Single`, which rounds to
/// nearest with ties to even. The contract claims only that the product is
/// a function of the two bit patterns.
#[verifier::external_body]
pub(crate) fn multiply_singles(a: u32, b: u32) -> (product: u32)
    ensures
        product == single_product(a, b),
{
    let product = Single::from_bits(a as u128) * Single::from_bits(b as u128);
    product.value.to_bits() as u32
}

/// Calls `rustc_apfloat`'s `Float::to_u128` on `ieee::Single` with a width
/// of 32 bits, which rounds toward zero, gives 0 for a NaN and the nearest
/// bound for a number out of range. The contract claims only that the
/// result is a function of the bit pattern.
#[verifier::external_body]
pub(crate) fn truncate_single(a: u32) -> (whole: u32)
    ensures
        whole == single_truncated(a),
{
    Single::from_bits(a as u128).to_u128(32).value as u32
}

/// The bit pattern of the largest finite single-precision number.
pub const FLOAT_MAX_BITS: u32 = 0x7F7F_FFFF;

/// The bit pattern of the least finite single-precision number.
pub const FLOAT_MIN_BITS: u32 = 0xFF7F_FFFF;

/// The bit pattern of the largest finite double-precision number.
pub const DOUBLE_MAX_BITS: u64 = 0x7FEF_FFFF_FFFF_FFFF;

/// The bit pattern of the least finite double-precision number.
pub const DOUBLE_MIN_BITS: u64 = 0xFFEF_FFFF_FFFF_FFFF;

/// Whether a single-precision bit pattern is a NaN: all exponent bits set
/// and a fraction that is not zero.
pub open spec fn float_is_nan(a: u32) -> bool {
    a % 0x8000_0000 > 0x7F80_0000
}

/// The place of a single-precision number that is no NaN in the order of
/// the numbers: its magnitude bits, negated under a set sign bit. Both
/// zeros have the place 0.
pub open spec fn float_order_key(a: u32) -> int {
    if a < 0x8000_0000 {
        a as int
    } else {
        -(a - 0x8000_0000)
    }
}

/// Whether the number with bit pattern `a` is less than the one with bit
/// pattern `b`. A NaN is less than nothing, and nothing is less than it.
pub open spec fn float_less(a: u32, b: u32) -> bool {
    !float_is_nan(a) && !float_is_nan(b) && float_order_key(a) < float_order_key(b)
}

/// Whether a double-precision bit pattern is a NaN.
pub open spec fn double_is_nan(a: u64) -> bool {
    a % 0x8000_0000_0000_0000 > 0x7FF0_0000_0000_0000
}

/// The place of a double-precision number that is no NaN in the order of
/// the numbers.
pub open spec fn double_order_key(a: u64) -> int {
    if a < 0x8000_0000_0000_0000 {
        a as int
    } else {
        -(a - 0x8000_0000_0000_0000)
    }
}

/// Whether the number with bit pattern `a` is less than the one with bit
/// pattern `b`. A NaN is less than nothing, and nothing is less than it.
pub open spec fn double_less(a: u64, b: u64) -> bool {
    !double_is_nan(a) && !double_is_nan(b) && double_order_key(a) < double_order_key(b)
}

/// Whether the single-precision number `a` is less than `b`.
pub fn float_lt(a: u32, b: u32) -> (less: bool)
    ensures
        less == float_less(a, b),
{
    if a % 0x8000_0000 > 0x7F80_0000 || b % 0x8000_0000 > 0x7F80_0000 {
        return false;
    }
    if a < 0x8000_0000 {
        if b < 0x8000_0000 {
            a < b
        } else {
            false
        }
    } else {
        if b < 0x8000_0000 {
            a > 0x8000_0000 || b > 0
        } else {
            a > b
        }
    }
}

/// Whether the double-precision number `a` is less than `b`.
pub fn double_lt(a: u64, b: u64) -> (less: bool)
    ensures
        less == double_less(a, b),
{
    if a % 0x8000_0000_0000_0000 > 0x7FF0_0000_0000_0000 || b % 0x8000_0000_0000_0000
        > 0x7FF0_0000_0000_0000 {
        return false;
    }
    if a < 0x8000_0000_0000_0000 {
        if b < 0x8000_0000_0000_0000 {
            a < b
        } else {
            false
        }
    } else {
        if b < 0x8000_0000_0000_0000 {
            a > 0x8000_0000_0000_0000 || b > 0
        } else {
            a > b
        }
    }
}

} // verus!
