//! IEEE-754 single-precision numbers as bit patterns.
//!
//! Bit 31 is the sign, bits 30..23 the exponent and bits 22..0 the fraction.
//! Among the patterns that are not NaN, numbers of one sign are ordered as
//! their magnitude bits are, so comparisons need no rounding arithmetic.

use vstd::prelude::*;

verus! {

/// The sign bit.
pub const SIGN: u32 = 0x8000_0000;

/// Positive infinity: the exponent all ones, the fraction zero.
pub const INFINITY: u32 = 0x7f80_0000;

pub const ZERO: u32 = 0;

pub const HALF: u32 = 0x3f00_0000;

pub const ONE: u32 = 0x3f80_0000;

pub const TWO: u32 = 0x4000_0000;

pub const FIFTY: u32 = 0x4248_0000;

/// The pattern without its sign bit.
pub open spec fn magnitude(x: u32) -> u32 {
    if x >= SIGN {
        (x - SIGN) as u32
    } else {
        x
    }
}

pub open spec fn negative(x: u32) -> bool {
    x >= SIGN
}

pub open spec fn nan(x: u32) -> bool {
    magnitude(x) > INFINITY
}

pub open spec fn finite(x: u32) -> bool {
    magnitude(x) < INFINITY
}

pub open spec fn zero(x: u32) -> bool {
    magnitude(x) == 0
}

/// The place of a pattern that is not NaN in the order of the numbers: the
/// magnitude bits, counted downwards for negative numbers.  Both zeros have
/// place 0.
pub open spec fn rank(x: u32) -> int {
    if negative(x) {
        -(magnitude(x) as int)
    } else {
        magnitude(x) as int
    }
}

/// `a < b` as numbers; false when either is NaN.
pub open spec fn lt(a: u32, b: u32) -> bool {
    !nan(a) && !nan(b) && rank(a) < rank(b)
}

/// `a > b` as numbers; false when either is NaN.
pub open spec fn gt(a: u32, b: u32) -> bool {
    lt(b, a)
}

/// `a == b` as numbers; false when either is NaN, true of the two zeros.
pub open spec fn same(a: u32, b: u32) -> bool {
    !nan(a) && !nan(b) && rank(a) == rank(b)
}

/// The pattern with its sign flipped.
pub open spec fn opposite(x: u32) -> u32 {
    if x >= SIGN {
        (x - SIGN) as u32
    } else {
        (x + SIGN) as u32
    }
}

pub fn abs_bits(x: u32) -> (r: u32)
    ensures
        r == magnitude(x),
{
    if x >= SIGN {
        x - SIGN
    } else {
        x
    }
}

pub fn is_nan(x: u32) -> (r: bool)
    ensures
        r == nan(x),
{
    abs_bits(x) > INFINITY
}

pub fn is_finite(x: u32) -> (r: bool)
    ensures
        r == finite(x),
{
    abs_bits(x) < INFINITY
}

pub fn is_zero(x: u32) -> (r: bool)
    ensures
        r == zero(x),
{
    abs_bits(x) == 0
}

pub fn less(a: u32, b: u32) -> (r: bool)
    ensures
        r == lt(a, b),
{
    if is_nan(a) || is_nan(b) {
        false
    } else if a >= SIGN {
        if b >= SIGN {
            a > b
        } else {
            // a negative, b non-negative: equal only when both are zero
            a > SIGN || b > 0
        }
    } else {
        b < SIGN && a < b
    }
}

pub fn greater(a: u32, b: u32) -> (r: bool)
    ensures
        r == gt(a, b),
{
    less(b, a)
}

pub fn equal(a: u32, b: u32) -> (r: bool)
    ensures
        r == same(a, b),
{
    if is_nan(a) || is_nan(b) {
        false
    } else {
        a == b || (abs_bits(a) == 0 && abs_bits(b) == 0)
    }
}

pub fn negate(x: u32) -> (r: u32)
    ensures
        r == opposite(x),
        magnitude(r) == magnitude(x),
        negative(r) != negative(x),
{
    if x >= SIGN {
        x - SIGN
    } else {
        x + SIGN
    }
}

} // verus!
