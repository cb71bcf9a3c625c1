//! Exact predicates and orderings on IEEE 754 double-precision bit
//! patterns.
//!
//! The service carries every scalar as the 64-bit pattern of a double.
//! Equality with zero, NaN and infinity tests, and the total order used
//! for minima, maxima and ranking are all decided here on the pattern
//! alone, in plain integer arithmetic.
//!
//! The total order is the one documented for the service: ordinary
//! values in their numeric order, the two zeroes identified, and every
//! NaN greater than every other value.

use vstd::prelude::*;

verus! {

/// Mask of the sign bit of a double-precision pattern.
pub const SIGN_MASK: u64 = 0x8000_0000_0000_0000;

/// Mask of everything but the sign bit.
pub const MAGNITUDE_MASK: u64 = 0x7FFF_FFFF_FFFF_FFFF;

/// Mask of the exponent field.
pub const EXPONENT_MASK: u64 = 0x7FF0_0000_0000_0000;

/// Mask of the mantissa field.
pub const MANTISSA_MASK: u64 = 0x000F_FFFF_FFFF_FFFF;

/// The pattern of positive zero.
pub const ZERO_BITS: u64 = 0;

/// The pattern of the double one.
pub const ONE_BITS: u64 = 0x3FF0_0000_0000_0000;

/// The pattern of the double two.
pub const TWO_BITS: u64 = 0x4000_0000_0000_0000;

/// The pattern compares equal to zero: positive or negative zero.
pub open spec fn spec_is_zero_bits(b: u64) -> bool {
    b & MAGNITUDE_MASK == 0
}

/// The pattern is a NaN: exponent all ones, mantissa non-zero.
pub open spec fn spec_is_nan_bits(b: u64) -> bool {
    b & EXPONENT_MASK == EXPONENT_MASK && b & MANTISSA_MASK != 0
}

/// The pattern is an infinity: exponent all ones, mantissa zero.
pub open spec fn spec_is_infinite_bits(b: u64) -> bool {
    b & EXPONENT_MASK == EXPONENT_MASK && b & MANTISSA_MASK == 0
}

/// Key of the documented total order: monotone in the numeric value,
/// both zeroes mapped to the same key, NaNs above everything.
pub open spec fn spec_float_key(b: u64) -> u64 {
    if spec_is_nan_bits(b) {
        u64::MAX
    } else if spec_is_zero_bits(b) {
        SIGN_MASK
    } else if b & SIGN_MASK == 0 {
        (b + SIGN_MASK) as u64
    } else {
        !b
    }
}

/// Decides equality with zero on the pattern.
pub fn is_zero_bits(b: u64) -> (r: bool)
    ensures
        r == spec_is_zero_bits(b),
{
    b & MAGNITUDE_MASK == 0
}

/// Decides whether the pattern is a NaN.
pub fn is_nan_bits(b: u64) -> (r: bool)
    ensures
        r == spec_is_nan_bits(b),
{
    b & EXPONENT_MASK == EXPONENT_MASK && b & MANTISSA_MASK != 0
}

/// Decides whether the pattern is an infinity.
pub fn is_infinite_bits(b: u64) -> (r: bool)
    ensures
        r == spec_is_infinite_bits(b),
{
    b & EXPONENT_MASK == EXPONENT_MASK && b & MANTISSA_MASK == 0
}

/// Computes the key of the documented total order.
pub fn float_key(b: u64) -> (r: u64)
    ensures
        r == spec_float_key(b),
{
    if is_nan_bits(b) {
        u64::MAX
    } else if is_zero_bits(b) {
        SIGN_MASK
    } else if b & SIGN_MASK == 0 {
        proof {
            assert(b & SIGN_MASK == 0 ==> b <= MAGNITUDE_MASK) by (bit_vector);
        }
        b + SIGN_MASK
    } else {
        !b
    }
}

} // verus!
