//! Floating point numbers as their bits: what can be decided about a value without arithmetic.

use vstd::prelude::*;

verus! {

/// The bits of infinity.
pub const INFINITY_BITS: u32 = 0x7f80_0000;

/// The sign bit.
pub const SIGN_BIT: u32 = 0x8000_0000;

/// The bits of a value without its sign.
pub open spec fn magnitude(v: u32) -> int {
    if v >= SIGN_BIT {
        v - SIGN_BIT
    } else {
        v as int
    }
}

/// The value is neither infinite nor undefined.
pub open spec fn finite(v: u32) -> bool {
    magnitude(v) < INFINITY_BITS
}

/// The value is undefined.
pub open spec fn undefined(v: u32) -> bool {
    magnitude(v) > INFINITY_BITS
}

/// A number that orders defined values as floating point does; both zeros are 0.
pub open spec fn rank(v: u32) -> int {
    if v >= SIGN_BIT {
        -magnitude(v)
    } else {
        magnitude(v)
    }
}

/// The first value is less than the second. An undefined value is less than none.
pub open spec fn less(a: u32, b: u32) -> bool {
    !undefined(a) && !undefined(b) && rank(a) < rank(b)
}

/// The first value is less than the second or equal to it.
pub open spec fn at_most(a: u32, b: u32) -> bool {
    !undefined(a) && !undefined(b) && rank(a) <= rank(b)
}

/// The values are equal as numbers. An undefined value equals none.
pub open spec fn same(a: u32, b: u32) -> bool {
    !undefined(a) && !undefined(b) && rank(a) == rank(b)
}

/// A value that is not finite becomes zero.
pub open spec fn finite_or_zero(v: u32) -> u32 {
    if finite(v) {
        v
    } else {
        0
    }
}

/// The value with the other sign.
pub open spec fn negated(v: u32) -> u32 {
    if v >= SIGN_BIT {
        (v - SIGN_BIT) as u32
    } else {
        (v + SIGN_BIT) as u32
    }
}

/// The bits of a value without its sign.
pub fn bits_magnitude(v: u32) -> (r: u32)
    ensures
        r == magnitude(v),
{
    if v >= SIGN_BIT {
        v - SIGN_BIT
    } else {
        v
    }
}

/// Whether the value is undefined.
pub fn is_undefined(v: u32) -> (r: bool)
    ensures
        r == undefined(v),
{
    bits_magnitude(v) > INFINITY_BITS
}

/// A number that orders defined values.
pub fn bits_rank(v: u32) -> (r: i64)
    ensures
        r == rank(v),
{
    if v >= SIGN_BIT {
        -((v - SIGN_BIT) as i64)
    } else {
        v as i64
    }
}

/// Whether the first value is less than the second.
pub fn less_than(a: u32, b: u32) -> (r: bool)
    ensures
        r == less(a, b),
{
    !is_undefined(a) && !is_undefined(b) && bits_rank(a) < bits_rank(b)
}

/// Whether the first value is no greater than the second.
pub fn not_above(a: u32, b: u32) -> (r: bool)
    ensures
        r == at_most(a, b),
{
    !is_undefined(a) && !is_undefined(b) && bits_rank(a) <= bits_rank(b)
}

/// Whether the values are equal as numbers.
pub fn same_value(a: u32, b: u32) -> (r: bool)
    ensures
        r == same(a, b),
{
    !is_undefined(a) && !is_undefined(b) && bits_rank(a) == bits_rank(b)
}

/// A value that is not finite becomes zero.
pub fn guard(v: u32) -> (r: u32)
    ensures
        r == finite_or_zero(v),
{
    if bits_magnitude(v) < INFINITY_BITS {
        v
    } else {
        0
    }
}

/// The value with the other sign.
pub fn negate(v: u32) -> (r: u32)
    ensures
        r == negated(v),
{
    if v >= SIGN_BIT {
        v - SIGN_BIT
    } else {
        v + SIGN_BIT
    }
}

/// The sign bit of a double precision number.
pub const SIGN_BIT_64: u64 = 0x8000_0000_0000_0000;

/// The bits of infinity in double precision.
pub const INFINITY_BITS_64: u64 = 0x7ff0_0000_0000_0000;

/// The double precision value is neither infinite nor undefined.
pub open spec fn finite64(v: u64) -> bool {
    (if v >= SIGN_BIT_64 {
        v - SIGN_BIT_64
    } else {
        v as int
    }) < INFINITY_BITS_64
}

/// The double precision value with the other sign.
pub open spec fn negated64(v: u64) -> u64 {
    if v >= SIGN_BIT_64 {
        (v - SIGN_BIT_64) as u64
    } else {
        (v + SIGN_BIT_64) as u64
    }
}

/// Whether a double precision value is neither infinite nor undefined.
pub fn is_finite64(v: u64) -> (r: bool)
    ensures
        r == finite64(v),
{
    if v >= SIGN_BIT_64 {
        v - SIGN_BIT_64 < INFINITY_BITS_64
    } else {
        v < INFINITY_BITS_64
    }
}

/// The double precision value with the other sign.
pub fn negate64(v: u64) -> (r: u64)
    ensures
        r == negated64(v),
{
    if v >= SIGN_BIT_64 {
        v - SIGN_BIT_64
    } else {
        v + SIGN_BIT_64
    }
}

/// The bits of one and of two.
pub const ONE_BITS: u32 = 0x3f80_0000;

pub const TWO_BITS: u32 = 0x4000_0000;

/// The power of two in a positive value that is not too small to have one.
pub open spec fn exponent(v: u32) -> int {
    v as int / 0x80_0000 - 127
}

/// What is left of a positive value when its power of two is taken out.
pub open spec fn mantissa(v: u32) -> u32 {
    (v % 0x80_0000 + ONE_BITS) as u32
}

/// The factor lies from one to below two, and both parts together give the value back.
pub proof fn law_split_gives_back_the_value(v: u32)
    requires
        v < INFINITY_BITS,
    ensures
        ONE_BITS <= mantissa(v) < TWO_BITS,
        (exponent(v) + 127) * 0x80_0000 + (mantissa(v) - ONE_BITS) == v,
{
}

} // verus!
