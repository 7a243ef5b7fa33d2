//! Numbers at run time: IEEE 754 double-precision values, held by their bits.
//!
//! Bit 63 is the sign, bits 62 to 52 the exponent, bits 51 to 0 the fraction.
//! What can be read off the bits is decided here: which pattern is a NaN, how
//! two numbers compare, and the negation, which flips the sign. Arithmetic,
//! and the passage between numerals and bits, needs rounding and is not done
//! by this crate.

use vstd::prelude::*;

verus! {

/// The sign bit alone; as a number, negative zero.
pub const SIGN_BIT: u64 = 0x8000_0000_0000_0000;

/// The bits of positive infinity: every exponent bit set, no fraction bit.
pub const INFINITY_BITS: u64 = 0x7ff0_0000_0000_0000;

/// The bits without the sign.
pub open spec fn magnitude(bits: u64) -> int {
    bits as int % SIGN_BIT as int
}

/// Whether the sign bit is set.
pub open spec fn sign_set(bits: u64) -> bool {
    bits >= SIGN_BIT
}

/// Whether the bits hold no number: every exponent bit set and some fraction
/// bit with them.
pub open spec fn is_nan(bits: u64) -> bool {
    magnitude(bits) > INFINITY_BITS
}

/// The place of a number on the line of all numbers. Among patterns of one
/// sign a greater magnitude is farther from zero, and both zeros share a place.
pub open spec fn ordinal(bits: u64) -> int {
    if sign_set(bits) {
        -magnitude(bits)
    } else {
        magnitude(bits)
    }
}

/// Equality of numbers: no NaN equals anything, the two zeros are equal.
pub open spec fn number_eq(a: u64, b: u64) -> bool {
    !is_nan(a) && !is_nan(b) && ordinal(a) == ordinal(b)
}

/// Strict order of numbers: no NaN is less than anything, nor anything less
/// than it.
pub open spec fn number_lt(a: u64, b: u64) -> bool {
    !is_nan(a) && !is_nan(b) && ordinal(a) < ordinal(b)
}

/// Order of numbers: less than or equal.
pub open spec fn number_le(a: u64, b: u64) -> bool {
    !is_nan(a) && !is_nan(b) && ordinal(a) <= ordinal(b)
}

/// The bits with the sign flipped.
pub open spec fn negated(bits: u64) -> u64 {
    if sign_set(bits) {
        (bits - SIGN_BIT) as u64
    } else {
        (bits + SIGN_BIT) as u64
    }
}

/// Whether `bits` hold a NaN.
pub fn nan(bits: u64) -> (r: bool)
    ensures
        r == is_nan(bits),
{
    bits % SIGN_BIT > INFINITY_BITS
}

/// Whether `a` is less than `b` where neither is a NaN.
fn below(a: u64, b: u64) -> (r: bool)
    ensures
        r == (ordinal(a) < ordinal(b)),
{
    let ma: u64 = a % SIGN_BIT;
    let mb: u64 = b % SIGN_BIT;
    if a >= SIGN_BIT {
        if b >= SIGN_BIT {
            mb < ma
        } else {
            ma > 0 || mb > 0
        }
    } else {
        if b >= SIGN_BIT {
            false
        } else {
            ma < mb
        }
    }
}

/// Whether `a` and `b` are the same number.
pub fn equal(a: u64, b: u64) -> (r: bool)
    ensures
        r == number_eq(a, b),
{
    if nan(a) || nan(b) {
        false
    } else {
        !below(a, b) && !below(b, a)
    }
}

/// Whether `a` is less than `b`.
pub fn less(a: u64, b: u64) -> (r: bool)
    ensures
        r == number_lt(a, b),
{
    if nan(a) || nan(b) {
        false
    } else {
        below(a, b)
    }
}

/// Whether `a` is less than or equal to `b`.
pub fn less_equal(a: u64, b: u64) -> (r: bool)
    ensures
        r == number_le(a, b),
{
    if nan(a) || nan(b) {
        false
    } else {
        !below(b, a)
    }
}

/// The negation of `bits`.
pub fn negate(bits: u64) -> (r: u64)
    ensures
        r == negated(bits),
{
    if bits >= SIGN_BIT {
        bits - SIGN_BIT
    } else {
        bits + SIGN_BIT
    }
}

} // verus!
