//! Arithmetic on samples.
//!
//! Samples are bits of single precision numbers. The effects take the arithmetic itself as a
//! function: what they state holds whatever that function yields.

use vstd::prelude::*;
use crate::float_bits::{bits_magnitude, is_undefined, less_than, SIGN_BIT};

verus! {

/// An operation on one or two values; one that takes a single value ignores the second.
#[derive(Debug, Clone, Copy, PartialEq, Eq, Structural)]
pub enum Calc {
    Add,
    Sub,
    Mul,
    Div,
    /// The hyperbolic tangent.
    Tanh,
    /// The exponential.
    Exp,
    /// The number of a power of two, which is given as a whole number with 127 added.
    Power,
    Sin,
    Cos,
    /// The square root.
    Sqrt,
    /// The logarithm to the base ten.
    Log10,
    /// Ten to the power of a value.
    TenTo,
    /// The nearest whole number, still as a number.
    Round,
    /// The number of a whole number.
    Whole,
    /// The whole number of a number: its fraction is dropped, and what is below zero becomes zero.
    Count,
}

/// The function that does the arithmetic takes every operation on every value.
pub open spec fn callable<F: Fn(Calc, u32, u32) -> u32>(f: F) -> bool {
    forall|c: Calc, a: u32, b: u32| #[trigger] call_requires(f, (c, a, b))
}

/// The arithmetic `f` always yields what `g` says.
pub open spec fn computes<F: Fn(Calc, u32, u32) -> u32>(
    f: F,
    g: spec_fn(Calc, u32, u32) -> u32,
) -> bool {
    forall|c: Calc, a: u32, b: u32, v: u32| #[trigger]
        call_ensures(f, (c, a, b), v) ==> v == g(c, a, b)
}

/// Does one operation.
pub fn apply<F: Fn(Calc, u32, u32) -> u32>(f: &F, c: Calc, a: u32, b: u32) -> (r: u32)
    requires
        callable(*f),
    ensures
        forall|g: spec_fn(Calc, u32, u32) -> u32| #[trigger] computes(*f, g) ==> r == g(c, a, b),
{
    f(c, a, b)
}

/// `a * b + c`.
pub open spec fn scaled_sum(
    a: u32,
    b: u32,
    c: u32,
    g: spec_fn(Calc, u32, u32) -> u32,
) -> u32 {
    g(Calc::Add, g(Calc::Mul, a, b), c)
}

/// A one-pole filter: `state * keep + x * (1 - keep)`.
pub open spec fn smoothed(
    state: u32,
    keep: u32,
    x: u32,
    g: spec_fn(Calc, u32, u32) -> u32,
) -> u32 {
    g(
        Calc::Add,
        g(Calc::Mul, state, keep),
        g(Calc::Mul, x, g(Calc::Sub, crate::float_bits::ONE_BITS, keep)),
    )
}

/// A one-pole filter.
pub fn smooth<F: Fn(Calc, u32, u32) -> u32>(f: &F, state: u32, keep: u32, x: u32) -> (r: u32)
    requires
        callable(*f),
    ensures
        forall|g: spec_fn(Calc, u32, u32) -> u32| #[trigger]
            computes(*f, g) ==> r == smoothed(state, keep, x, g),
{
    let rest: u32 = apply(f, Calc::Sub, crate::float_bits::ONE_BITS, keep);
    let kept: u32 = apply(f, Calc::Mul, state, keep);
    let new: u32 = apply(f, Calc::Mul, x, rest);
    apply(f, Calc::Add, kept, new)
}

/// The bits of 1e-18: values nearer to zero become zero.
pub const FLUSH_BITS: u32 = 0x2193_92ef;

/// The bits of 4: samples are kept within this distance of zero.
pub const LIMIT_BITS: u32 = 0x4080_0000;

/// A value that is almost zero becomes zero.
pub open spec fn flushed(v: u32) -> u32 {
    if crate::float_bits::magnitude(v) < FLUSH_BITS {
        0
    } else {
        v
    }
}

/// A value that is almost zero becomes zero.
pub fn flush(v: u32) -> (r: u32)
    ensures
        r == flushed(v),
{
    if bits_magnitude(v) < FLUSH_BITS {
        0
    } else {
        v
    }
}

/// A value that is too large is cut to the limit.
pub open spec fn limited(v: u32) -> u32 {
    if !crate::float_bits::undefined(v) && crate::float_bits::magnitude(v) > LIMIT_BITS {
        if v >= SIGN_BIT {
            (LIMIT_BITS + SIGN_BIT) as u32
        } else {
            LIMIT_BITS
        }
    } else {
        v
    }
}

/// A value that is too large is cut to the limit.
pub fn limit(v: u32) -> (r: u32)
    ensures
        r == limited(v),
{
    let m: u32 = bits_magnitude(v);
    if !is_undefined(v) && m > LIMIT_BITS {
        if v >= SIGN_BIT {
            LIMIT_BITS + SIGN_BIT
        } else {
            LIMIT_BITS
        }
    } else {
        v
    }
}

/// What is cut lies within the limit.
pub proof fn law_limited_values_stay_inside(v: u32)
    requires
        !crate::float_bits::undefined(v),
    ensures
        crate::float_bits::magnitude(limited(v)) <= LIMIT_BITS,
        crate::float_bits::finite(limited(v)),
{
}

/// The larger of two values; one that is undefined does not count.
pub open spec fn larger(a: u32, b: u32) -> u32 {
    if crate::float_bits::undefined(b) || crate::float_bits::less(b, a) {
        a
    } else {
        b
    }
}

/// The larger of two values.
pub fn larger_of(a: u32, b: u32) -> (r: u32)
    ensures
        r == larger(a, b),
{
    if is_undefined(b) || less_than(b, a) {
        a
    } else {
        b
    }
}

/// The bits of a half.
pub const HALF_BITS: u32 = 0x3f00_0000;

/// A value cut to the range from zero to one; an undefined one stays.
pub open spec fn unit(v: u32) -> u32 {
    if crate::float_bits::less(v, 0) {
        0
    } else if crate::float_bits::less(crate::float_bits::ONE_BITS, v) {
        crate::float_bits::ONE_BITS
    } else {
        v
    }
}

/// A value cut to the range from zero to one.
pub fn to_unit(v: u32) -> (r: u32)
    ensures
        r == unit(v),
{
    if less_than(v, 0) {
        0
    } else if less_than(crate::float_bits::ONE_BITS, v) {
        crate::float_bits::ONE_BITS
    } else {
        v
    }
}

/// The frames of an interleaved block lie inside it.
pub proof fn lemma_frame_inside(f: int, len: int, channels: int)
    requires
        0 <= f < len / channels,
        channels > 0,
        len >= 0,
    ensures
        0 <= f * channels,
        f * channels + channels <= len,
{
    assert(0 <= f * channels) by (nonlinear_arith)
        requires
            0 <= f,
            channels > 0,
    ;
    assert(f * channels + channels <= len) by (nonlinear_arith)
        requires
            f + 1 <= len / channels,
            channels > 0,
            len >= 0,
    ;
}

} // verus!
