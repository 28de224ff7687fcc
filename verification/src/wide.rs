//! Arithmetic in double precision.
//!
//! Numbers are held as their bits, and the arithmetic itself is handed in as a function: what is
//! stated of a formula holds whatever that function yields.

use vstd::prelude::*;
use crate::float_bits::{INFINITY_BITS_64, SIGN_BIT_64};

verus! {

/// An operation on one or two values; one that takes a single value ignores the second.
#[derive(Debug, Clone, Copy, PartialEq, Eq, Structural)]
pub enum Wide {
    Add,
    Sub,
    Mul,
    Div,
    Sin,
    Cos,
    /// The square root.
    Sqrt,
    /// The logarithm to the base ten.
    Log10,
    /// Ten to the power of a value.
    TenTo,
    /// The number of a whole number.
    Whole,
    /// The number whose single precision bits are given.
    Widen,
    /// The single precision bits of the nearest number.
    Narrow,
}

/// The function that does the arithmetic takes every operation on every value.
pub open spec fn callable<F: Fn(Wide, u64, u64) -> u64>(f: F) -> bool {
    forall|c: Wide, a: u64, b: u64| #[trigger] call_requires(f, (c, a, b))
}

/// The arithmetic `f` always yields what `g` says.
pub open spec fn computes<F: Fn(Wide, u64, u64) -> u64>(
    f: F,
    g: spec_fn(Wide, u64, u64) -> u64,
) -> bool {
    forall|c: Wide, a: u64, b: u64, v: u64| #[trigger]
        call_ensures(f, (c, a, b), v) ==> v == g(c, a, b)
}

/// Does one operation.
pub fn apply<F: Fn(Wide, u64, u64) -> u64>(f: &F, c: Wide, a: u64, b: u64) -> (r: u64)
    requires
        callable(*f),
    ensures
        forall|g: spec_fn(Wide, u64, u64) -> u64| #[trigger] computes(*f, g) ==> r == g(c, a, b),
{
    f(c, a, b)
}

/// The single precision bits of a number.
pub open spec fn narrowed(v: u64, g: spec_fn(Wide, u64, u64) -> u64) -> u32 {
    (g(Wide::Narrow, v, 0) % 0x1_0000_0000) as u32
}

/// The single precision bits of a number.
pub fn narrow<F: Fn(Wide, u64, u64) -> u64>(f: &F, v: u64) -> (r: u32)
    requires
        callable(*f),
    ensures
        forall|g: spec_fn(Wide, u64, u64) -> u64| #[trigger]
            computes(*f, g) ==> r == narrowed(v, g),
{
    (apply(f, Wide::Narrow, v, 0) % 0x1_0000_0000) as u32
}

/// The bits of one, of two and of minus two.
pub const ONE_WIDE: u64 = 0x3ff0_0000_0000_0000;

pub const TWO_WIDE: u64 = 0x4000_0000_0000_0000;

pub const MINUS_TWO_WIDE: u64 = 0xc000_0000_0000_0000;

/// The bits of a full turn.
pub const TURN_WIDE: u64 = 0x4019_21fb_5444_2d18;

/// The bits of a value without its sign.
pub open spec fn magnitude64(v: u64) -> int {
    if v >= SIGN_BIT_64 {
        v - SIGN_BIT_64
    } else {
        v as int
    }
}

/// The value is undefined.
pub open spec fn undefined64(v: u64) -> bool {
    magnitude64(v) > INFINITY_BITS_64
}

/// The first value is less than the second. An undefined value is less than none.
pub open spec fn less64(a: u64, b: u64) -> bool {
    !undefined64(a) && !undefined64(b) && (if a >= SIGN_BIT_64 {
        -magnitude64(a)
    } else {
        magnitude64(a)
    }) < (if b >= SIGN_BIT_64 {
        -magnitude64(b)
    } else {
        magnitude64(b)
    })
}

/// The bits of a value without its sign.
pub fn bits_magnitude64(v: u64) -> (r: u64)
    ensures
        r == magnitude64(v),
{
    if v >= SIGN_BIT_64 {
        v - SIGN_BIT_64
    } else {
        v
    }
}

/// Whether the first value is less than the second.
pub fn less_than64(a: u64, b: u64) -> (r: bool)
    ensures
        r == less64(a, b),
{
    let (ma, mb): (u64, u64) = (bits_magnitude64(a), bits_magnitude64(b));
    if ma > INFINITY_BITS_64 || mb > INFINITY_BITS_64 {
        false
    } else if a >= SIGN_BIT_64 {
        if b >= SIGN_BIT_64 {
            mb < ma
        } else {
            ma > 0 || mb > 0
        }
    } else {
        b < SIGN_BIT_64 && ma < mb
    }
}

/// The larger of two values; one that is undefined does not count.
pub open spec fn larger64(a: u64, b: u64) -> u64 {
    if undefined64(b) || less64(b, a) {
        a
    } else {
        b
    }
}

/// The larger of two values.
pub fn larger_of64(a: u64, b: u64) -> (r: u64)
    ensures
        r == larger64(a, b),
{
    if bits_magnitude64(b) > INFINITY_BITS_64 || less_than64(b, a) {
        a
    } else {
        b
    }
}

/// A value cut to a range; an undefined one stays.
pub open spec fn between64(v: u64, low: u64, high: u64) -> u64 {
    if less64(v, low) {
        low
    } else if less64(high, v) {
        high
    } else {
        v
    }
}

/// A value cut to a range.
pub fn cut64(v: u64, low: u64, high: u64) -> (r: u64)
    ensures
        r == between64(v, low, high),
{
    if less_than64(v, low) {
        low
    } else if less_than64(high, v) {
        high
    } else {
        v
    }
}

/// Cutting to a range yields a value inside it.
pub proof fn law_cut_values_stay_inside(v: u64, low: u64, high: u64)
    requires
        !undefined64(v),
        !less64(high, low),
    ensures
        !less64(between64(v, low, high), low),
        !less64(high, between64(v, low, high)),
{
}

} // verus!
