//! IEEE-754 single precision, judged by its bits.
//!
//! The wire carries every real number as the four bytes of an IEEE-754 binary32, and the
//! library holds it the same way: as the `u32` of its bits. The codec never computes with a
//! real number; it only asks what kind of number the bits are, and those questions are
//! answered here from the bits alone: the exponent field all ones is an infinity or a NaN,
//! and a zero is any sign with every other bit clear.

use vstd::prelude::*;

verus! {

/// The exponent field of a binary32.
pub const EXPONENT_MASK: u32 = 0x7f80_0000;

/// The fraction field of a binary32.
pub const FRACTION_MASK: u32 = 0x007f_ffff;

/// The sign bit of a binary32.
pub const SIGN_MASK: u32 = 0x8000_0000;

/// A real number: neither an infinity nor a NaN.
pub open spec fn finite(bits: u32) -> bool {
    bits & EXPONENT_MASK != EXPONENT_MASK
}

/// Not a number.
pub open spec fn is_nan(bits: u32) -> bool {
    bits & EXPONENT_MASK == EXPONENT_MASK && bits & FRACTION_MASK != 0
}

/// Positive or negative zero: the two patterns that compare equal to `0.0`.
pub open spec fn is_zero(bits: u32) -> bool {
    bits & 0x7fff_ffff == 0
}

/// What `x >= 0.0` answers: a NaN compares false, negative zero compares equal.
pub open spec fn at_least_zero(bits: u32) -> bool {
    !is_nan(bits) && (bits & SIGN_MASK == 0 || is_zero(bits))
}

/// What `x > 0.0` answers.
pub open spec fn above_zero(bits: u32) -> bool {
    !is_nan(bits) && bits & SIGN_MASK == 0 && !is_zero(bits)
}

/// Whether the binary32 number these bits spell is finite.
pub fn is_finite(bits: u32) -> (r: bool)
    ensures
        r == finite(bits),
{
    bits & EXPONENT_MASK != EXPONENT_MASK
}

/// Whether the binary32 number these bits spell is zero, of either sign.
pub fn is_zero_bits(bits: u32) -> (r: bool)
    ensures
        r == is_zero(bits),
{
    bits & 0x7fff_ffff == 0
}

/// Whether the binary32 number these bits spell is zero or more.
pub fn is_at_least_zero(bits: u32) -> (r: bool)
    ensures
        r == at_least_zero(bits),
{
    let nan = bits & EXPONENT_MASK == EXPONENT_MASK && bits & FRACTION_MASK != 0;
    !nan && (bits & SIGN_MASK == 0 || bits & 0x7fff_ffff == 0)
}

/// Whether the binary32 number these bits spell is strictly positive.
pub fn is_above_zero(bits: u32) -> (r: bool)
    ensures
        r == above_zero(bits),
{
    let nan = bits & EXPONENT_MASK == EXPONENT_MASK && bits & FRACTION_MASK != 0;
    !nan && bits & SIGN_MASK == 0 && bits & 0x7fff_ffff != 0
}

} // verus!
