//! What arithmetic on numbers keeps, however it rounds.
//!
//! The effects take their arithmetic as a function. These statements say of such a function that it
//! orders values as numbers are ordered, and treats zero and one as numbers do. The laws on what is
//! heard ask for those of them that they need.

use vstd::prelude::*;
use crate::dsp::arith::{Calc, HALF_BITS};
use crate::float_bits::{ONE_BITS, TWO_BITS};

verus! {

/// The value is zero, of either sign.
pub open spec fn zero(v: u32) -> bool {
    crate::float_bits::same(v, 0)
}

/// The value is finite and above zero.
pub open spec fn positive(v: u32) -> bool {
    crate::float_bits::finite(v) && crate::float_bits::less(0, v)
}

/// The value is finite and not below zero.
pub open spec fn not_negative(v: u32) -> bool {
    crate::float_bits::finite(v) && crate::float_bits::at_most(0, v)
}

/// The bits of 2 to the power of 40, and of -40.
pub const LARGE: u32 = 0x5380_0000;

pub const SMALL: u32 = 0x2b80_0000;

/// The bits of 0.001, of -0.001, and of ten.
pub const LITTLE: u32 = 0x3a83_126f;

pub const LITTLE_BELOW: u32 = 0xba83_126f;

pub const TEN: u32 = 0x4120_0000;

/// The value is above zero, and neither very small nor very large.
pub open spec fn moderate(v: u32) -> bool {
    crate::float_bits::at_most(SMALL, v) && crate::float_bits::at_most(v, LARGE)
}

/// The value lies within two to the power of `k` of zero.
pub open spec fn within(v: u32, k: int) -> bool {
    0 <= k <= 100 && crate::float_bits::magnitude(v) <= (127 + k) * 0x80_0000
}

/// The value is at least two to the power of minus `k`.
pub open spec fn reaches(v: u32, k: int) -> bool {
    &&& 0 <= k <= 100
    &&& !crate::float_bits::undefined(v)
    &&& crate::float_bits::rank(v) >= (127 - k) * 0x80_0000
}

/// Sums, differences and products of values that are not too large are not too large either.
pub open spec fn tame(g: spec_fn(Calc, u32, u32) -> u32) -> bool {
    &&& forall|a: u32, b: u32, k: int|
        #![trigger within(a, k), within(b, k), g(Calc::Add, a, b)]
        k < 100 && within(a, k) && within(b, k) ==> within(g(Calc::Add, a, b), k + 1)
    &&& forall|a: u32, b: u32, k: int|
        #![trigger within(a, k), within(b, k), g(Calc::Sub, a, b)]
        k < 100 && within(a, k) && within(b, k) ==> within(g(Calc::Sub, a, b), k + 1)
    &&& forall|a: u32, b: u32, j: int, k: int|
        #![trigger within(a, j), within(b, k), g(Calc::Mul, a, b)]
        j + k <= 100 && within(a, j) && within(b, k) ==> within(g(Calc::Mul, a, b), j + k)
}

/// Sums: zero adds nothing, and larger values give larger sums.
pub open spec fn adds(g: spec_fn(Calc, u32, u32) -> u32) -> bool {
    &&& forall|a: u32, b: u32|
        zero(a) && !crate::float_bits::undefined(b) ==> crate::float_bits::same(
            #[trigger] g(Calc::Add, a, b),
            b,
        )
    &&& forall|a: u32, b: u32|
        zero(b) && !crate::float_bits::undefined(a) ==> crate::float_bits::same(
            #[trigger] g(Calc::Add, a, b),
            a,
        )
    &&& forall|a: u32, b: u32, c: u32|
        #![trigger g(Calc::Add, a, c), g(Calc::Add, b, c)]
        crate::float_bits::finite(c) && crate::float_bits::at_most(a, b)
            ==> crate::float_bits::at_most(g(Calc::Add, a, c), g(Calc::Add, b, c))
    &&& forall|a: u32, b: u32, c: u32|
        #![trigger g(Calc::Add, c, a), g(Calc::Add, c, b)]
        crate::float_bits::finite(c) && crate::float_bits::at_most(a, b)
            ==> crate::float_bits::at_most(g(Calc::Add, c, a), g(Calc::Add, c, b))
}

/// Differences: zero takes nothing away, nothing is left of a value without itself and something of
/// a larger one, more is left of larger values, and less where more is taken away.
pub open spec fn subtracts(g: spec_fn(Calc, u32, u32) -> u32) -> bool {
    &&& forall|a: u32, b: u32|
        zero(b) && !crate::float_bits::undefined(a) ==> crate::float_bits::same(
            #[trigger] g(Calc::Sub, a, b),
            a,
        )
    &&& forall|a: u32, b: u32|
        crate::float_bits::finite(a) && crate::float_bits::same(a, b) ==> zero(
            #[trigger] g(Calc::Sub, a, b),
        )
    &&& forall|a: u32, b: u32|
        crate::float_bits::finite(a) && crate::float_bits::finite(b) && crate::float_bits::less(b, a)
            ==> crate::float_bits::less(0, #[trigger] g(Calc::Sub, a, b))
    &&& forall|a: u32, b: u32, c: u32|
        #![trigger g(Calc::Sub, a, c), g(Calc::Sub, b, c)]
        crate::float_bits::finite(c) && crate::float_bits::at_most(a, b)
            ==> crate::float_bits::at_most(g(Calc::Sub, a, c), g(Calc::Sub, b, c))
    &&& forall|a: u32, b: u32, c: u32|
        #![trigger g(Calc::Sub, c, a), g(Calc::Sub, c, b)]
        crate::float_bits::finite(c) && crate::float_bits::at_most(a, b)
            ==> crate::float_bits::at_most(g(Calc::Sub, c, b), g(Calc::Sub, c, a))
    &&& crate::float_bits::same(g(Calc::Sub, ONE_BITS, HALF_BITS), HALF_BITS)
    &&& crate::float_bits::same(g(Calc::Sub, TWO_BITS, ONE_BITS), ONE_BITS)
    &&& forall|a: u32, b: u32|
        zero(a) && crate::float_bits::finite(b) ==> crate::float_bits::same(
            #[trigger] g(Calc::Sub, a, b),
            crate::float_bits::negated(b),
        )
}

/// Products: zero makes zero, one changes nothing, a factor that is not negative keeps the order, and
/// the sign of a product is that of its factors.
pub open spec fn multiplies(g: spec_fn(Calc, u32, u32) -> u32) -> bool {
    &&& forall|a: u32, b: u32|
        crate::float_bits::finite(a) && crate::float_bits::finite(b) && (zero(a) || zero(b))
            ==> zero(#[trigger] g(Calc::Mul, a, b))
    &&& forall|a: u32, b: u32|
        moderate(a) && moderate(b) ==> positive(#[trigger] g(Calc::Mul, a, b))
    &&& forall|a: u32, b: u32, j: int, k: int|
        #![trigger reaches(a, j), reaches(b, k), g(Calc::Mul, a, b)]
        j + k <= 100 && reaches(a, j) && reaches(b, k) ==> reaches(g(Calc::Mul, a, b), j + k)
    &&& forall|a: u32, b: u32|
        crate::float_bits::same(a, ONE_BITS) && !crate::float_bits::undefined(b)
            ==> crate::float_bits::same(#[trigger] g(Calc::Mul, a, b), b)
    &&& forall|a: u32, b: u32|
        crate::float_bits::same(b, ONE_BITS) && !crate::float_bits::undefined(a)
            ==> crate::float_bits::same(#[trigger] g(Calc::Mul, a, b), a)
    &&& forall|a: u32, b: u32, c: u32|
        #![trigger g(Calc::Mul, a, c), g(Calc::Mul, b, c)]
        positive(c) && crate::float_bits::at_most(a, b) ==> crate::float_bits::at_most(
            g(Calc::Mul, a, c),
            g(Calc::Mul, b, c),
        )
    &&& forall|a: u32, b: u32, c: u32|
        #![trigger g(Calc::Mul, c, a), g(Calc::Mul, c, b)]
        positive(c) && crate::float_bits::at_most(a, b) ==> crate::float_bits::at_most(
            g(Calc::Mul, c, a),
            g(Calc::Mul, c, b),
        )
    &&& forall|a: u32, b: u32, c: u32|
        #![trigger g(Calc::Mul, a, c), g(Calc::Mul, b, c)]
        crate::float_bits::finite(a) && crate::float_bits::finite(c) && b
            == crate::float_bits::negated(a) ==> crate::float_bits::same(
            g(Calc::Mul, b, c),
            crate::float_bits::negated(g(Calc::Mul, a, c)),
        )
}

/// Quotients: zero stays zero, one as a divisor changes nothing, a positive divisor keeps the order
/// and the sign, a larger one brings a quotient nearer to zero, and one half is a half.
pub open spec fn divides(g: spec_fn(Calc, u32, u32) -> u32) -> bool {
    &&& crate::float_bits::same(g(Calc::Div, ONE_BITS, TWO_BITS), HALF_BITS)
    &&& forall|a: u32, b: u32| zero(a) && positive(b) ==> zero(#[trigger] g(Calc::Div, a, b))
    &&& forall|a: u32, b: u32|
        moderate(a) && moderate(b) ==> positive(#[trigger] g(Calc::Div, a, b))
    &&& forall|a: u32, b: u32, j: int, k: int|
        #![trigger reaches(a, j), within(b, k), g(Calc::Div, a, b)]
        j + k <= 100 && reaches(a, j) && within(b, k) && positive(b) ==> reaches(
            g(Calc::Div, a, b),
            j + k,
        )
    &&& forall|a: u32, b: u32, j: int, k: int|
        #![trigger within(a, j), reaches(b, k), g(Calc::Div, a, b)]
        j + k <= 100 && within(a, j) && reaches(b, k) && crate::float_bits::finite(b) ==> within(
            g(Calc::Div, a, b),
            j + k,
        )
    &&& forall|a: u32, b: u32|
        crate::float_bits::same(b, ONE_BITS) && !crate::float_bits::undefined(a)
            ==> crate::float_bits::same(#[trigger] g(Calc::Div, a, b), a)
    &&& forall|a: u32, b: u32|
        positive(a) && crate::float_bits::same(a, b) ==> crate::float_bits::same(
            #[trigger] g(Calc::Div, a, b),
            ONE_BITS,
        )
    &&& forall|a: u32, b: u32, c: u32|
        #![trigger g(Calc::Div, a, c), g(Calc::Div, b, c)]
        crate::float_bits::finite(a) && positive(c) && b == crate::float_bits::negated(a)
            ==> crate::float_bits::same(
            g(Calc::Div, b, c),
            crate::float_bits::negated(g(Calc::Div, a, c)),
        )
    &&& forall|a: u32, b: u32, c: u32|
        #![trigger g(Calc::Div, a, c), g(Calc::Div, b, c)]
        positive(c) && crate::float_bits::at_most(a, b) ==> crate::float_bits::at_most(
            g(Calc::Div, a, c),
            g(Calc::Div, b, c),
        )
    &&& forall|a: u32, b: u32, c: u32|
        #![trigger g(Calc::Div, c, a), g(Calc::Div, c, b)]
        positive(a) && crate::float_bits::at_most(a, b) && not_negative(c)
            ==> crate::float_bits::at_most(g(Calc::Div, c, b), g(Calc::Div, c, a))
    &&& forall|a: u32, b: u32, c: u32|
        #![trigger g(Calc::Div, c, a), g(Calc::Div, c, b)]
        positive(a) && crate::float_bits::at_most(a, b) && crate::float_bits::finite(c)
            && crate::float_bits::less(c, 0) ==> crate::float_bits::at_most(
            g(Calc::Div, c, a),
            g(Calc::Div, c, b),
        )
}

/// A function of one value rises, and takes one value to another.
pub open spec fn rises(
    op: Calc,
    from: u32,
    to: u32,
    g: spec_fn(Calc, u32, u32) -> u32,
) -> bool {
    &&& forall|a: u32|
        crate::float_bits::same(a, from) ==> crate::float_bits::same(#[trigger] g(op, a, 0), to)
    &&& forall|a: u32, b: u32|
        #![trigger g(op, a, 0), g(op, b, 0)]
        crate::float_bits::at_most(a, b) ==> crate::float_bits::at_most(g(op, a, 0), g(op, b, 0))
}

/// Powers: they rise with the exponent, the power of zero is one, those of other exponents differ from
/// one, and none is below zero. Ten to the power of one is ten.
pub open spec fn empowers(g: spec_fn(Calc, u32, u32) -> u32) -> bool {
    &&& rises(Calc::Exp, 0, ONE_BITS, g)
    &&& rises(Calc::TenTo, 0, ONE_BITS, g)
    &&& crate::float_bits::same(g(Calc::TenTo, ONE_BITS, 0), TEN)
    &&& forall|a: u32|
        crate::float_bits::at_most(LITTLE, a) ==> crate::float_bits::less(
            ONE_BITS,
            #[trigger] g(Calc::Exp, a, 0),
        )
    &&& forall|a: u32|
        crate::float_bits::at_most(a, LITTLE_BELOW) ==> crate::float_bits::less(
            #[trigger] g(Calc::Exp, a, 0),
            ONE_BITS,
        )
    &&& forall|a: u32|
        crate::float_bits::at_most(a, LITTLE_BELOW) ==> crate::float_bits::less(
            #[trigger] g(Calc::TenTo, a, 0),
            ONE_BITS,
        )
    &&& forall|a: u32|
        !crate::float_bits::undefined(a) ==> crate::float_bits::at_most(
            0,
            #[trigger] g(Calc::Exp, a, 0),
        )
    &&& forall|a: u32|
        !crate::float_bits::undefined(a) ==> crate::float_bits::at_most(
            0,
            #[trigger] g(Calc::TenTo, a, 0),
        )
}

/// Whole numbers: more of them make larger numbers, and larger numbers hold more of them.
pub open spec fn counts(g: spec_fn(Calc, u32, u32) -> u32) -> bool {
    &&& rises(Calc::Round, 0, 0, g)
    &&& g(Calc::Count, 0, 0) == 0
    &&& g(Calc::Count, ONE_BITS, 0) == 1
    &&& forall|a: u32, b: u32|
        #![trigger g(Calc::Count, a, 0), g(Calc::Count, b, 0)]
        crate::float_bits::at_most(a, b) ==> g(Calc::Count, a, 0) <= g(Calc::Count, b, 0)
    &&& g(Calc::Whole, 0, 0) == 0
    &&& g(Calc::Whole, 1, 0) == ONE_BITS
    &&& forall|a: u32| within(#[trigger] g(Calc::Whole, a, 0), 32)
    &&& forall|a: u32, b: u32|
        #![trigger g(Calc::Whole, a, 0), g(Calc::Whole, b, 0)]
        a <= b ==> crate::float_bits::at_most(g(Calc::Whole, a, 0), g(Calc::Whole, b, 0))
}

/// All of this together.
#[verifier::opaque]
pub open spec fn ordinary(g: spec_fn(Calc, u32, u32) -> u32) -> bool {
    &&& tame(g)
    &&& adds(g)
    &&& subtracts(g)
    &&& multiplies(g)
    &&& divides(g)
    &&& empowers(g)
    &&& counts(g)
}

} // verus!
