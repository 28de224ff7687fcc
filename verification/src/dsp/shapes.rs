//! What filters do, told from their coefficients: a gain raises or lowers, a larger quality narrows,
//! and the filters for what is above a frequency are those for what is below it, mirrored.

use vstd::prelude::*;
use crate::dsp::design::Angle;
use crate::float_bits::{ONE_BITS, SIGN_BIT_64};
use crate::wide::{Wide, MINUS_TWO_WIDE, ONE_WIDE, TURN_WIDE, TWO_WIDE};

verus! {

/// A number that orders defined values as floating point does; both zeros are 0.
pub open spec fn rank64(v: u64) -> int {
    if v >= SIGN_BIT_64 {
        -crate::wide::magnitude64(v)
    } else {
        crate::wide::magnitude64(v)
    }
}

/// The first value is less than the second or equal to it.
pub open spec fn at_most64(a: u64, b: u64) -> bool {
    !crate::wide::undefined64(a) && !crate::wide::undefined64(b) && rank64(a) <= rank64(b)
}

/// The value is finite and above zero.
pub open spec fn positive64(v: u64) -> bool {
    crate::float_bits::finite64(v) && rank64(v) > 0
}

/// Larger values have larger sums, products, quotients and powers, and lie as they do in single
/// precision; one changes no factor, and a value divided by itself is one.
#[verifier::opaque]
pub open spec fn orders(g: spec_fn(Wide, u64, u64) -> u64) -> bool {
    &&& forall|a: u64, b: u64, c: u64|
        #![trigger g(Wide::Add, c, a), g(Wide::Add, c, b)]
        crate::float_bits::finite64(c) && at_most64(a, b) ==> at_most64(
            g(Wide::Add, c, a),
            g(Wide::Add, c, b),
        )
    &&& forall|a: u64, b: u64, c: u64|
        #![trigger g(Wide::Add, a, c), g(Wide::Add, b, c)]
        crate::float_bits::finite64(c) && at_most64(a, b) ==> at_most64(
            g(Wide::Add, a, c),
            g(Wide::Add, b, c),
        )
    &&& forall|a: u64, b: u64, c: u64|
        #![trigger g(Wide::Sub, c, a), g(Wide::Sub, c, b)]
        crate::float_bits::finite64(c) && at_most64(a, b) ==> at_most64(
            g(Wide::Sub, c, b),
            g(Wide::Sub, c, a),
        )
    &&& forall|a: u64, b: u64, c: u64|
        #![trigger g(Wide::Sub, a, c), g(Wide::Sub, b, c)]
        crate::float_bits::finite64(c) && at_most64(a, b) ==> at_most64(
            g(Wide::Sub, a, c),
            g(Wide::Sub, b, c),
        )
    &&& forall|a: u64, b: u64, c: u64|
        #![trigger g(Wide::Mul, c, a), g(Wide::Mul, c, b)]
        positive64(c) && at_most64(a, b) ==> at_most64(g(Wide::Mul, c, a), g(Wide::Mul, c, b))
    &&& forall|a: u64, b: u64, c: u64|
        #![trigger g(Wide::Div, a, c), g(Wide::Div, b, c)]
        positive64(c) && at_most64(a, b) ==> at_most64(g(Wide::Div, a, c), g(Wide::Div, b, c))
    &&& forall|a: u64, b: u64, c: u64|
        #![trigger g(Wide::Div, c, a), g(Wide::Div, c, b)]
        positive64(a) && at_most64(a, b) && crate::float_bits::finite64(c) && at_most64(0, c)
            ==> at_most64(g(Wide::Div, c, b), g(Wide::Div, c, a))
    &&& forall|a: u64|
        crate::float_bits::finite64(a) ==> at_most64(#[trigger] g(Wide::Mul, a, ONE_WIDE), a)
            && at_most64(a, g(Wide::Mul, a, ONE_WIDE))
    &&& forall|a: u64|
        crate::float_bits::finite64(a) ==> at_most64(#[trigger] g(Wide::Div, a, ONE_WIDE), a)
            && at_most64(a, g(Wide::Div, a, ONE_WIDE))
    &&& forall|a: u64|
        positive64(a) ==> at_most64(#[trigger] g(Wide::Div, a, a), ONE_WIDE) && at_most64(
            ONE_WIDE,
            g(Wide::Div, a, a),
        )
    &&& forall|a: u64, b: u64|
        rank64(b) == 0 && crate::float_bits::finite64(a) ==> at_most64(
            #[trigger] g(Wide::Sub, a, b),
            a,
        ) && at_most64(a, g(Wide::Sub, a, b))
    &&& forall|a: u64, b: u64|
        rank64(b) == 0 && crate::float_bits::finite64(a) ==> at_most64(
            #[trigger] g(Wide::Add, a, b),
            a,
        ) && at_most64(a, g(Wide::Add, a, b))
    &&& forall|a: u64, b: u64|
        at_most64(a, b) && crate::float_bits::finite64(a) && crate::float_bits::finite64(b)
            ==> at_most64(0, #[trigger] g(Wide::Sub, b, a))
    &&& forall|a: u64, b: u64|
        crate::float_bits::finite64(a) && crate::float_bits::finite64(b) && at_most64(0, a)
            && at_most64(0, b) ==> at_most64(0, #[trigger] g(Wide::Mul, a, b))
    &&& forall|a: u64, b: u64|
        crate::float_bits::finite64(a) && crate::float_bits::finite64(b) && at_most64(a, 0)
            && at_most64(0, b) ==> at_most64(#[trigger] g(Wide::Mul, a, b), 0)
    &&& forall|a: u64|
        crate::float_bits::finite64(a) ==> at_most64(#[trigger] g(Wide::Sub, a, a), 0)
    &&& forall|a: u64, b: u64|
        #![trigger g(Wide::TenTo, a, 0), g(Wide::TenTo, b, 0)]
        at_most64(a, b) ==> at_most64(g(Wide::TenTo, a, 0), g(Wide::TenTo, b, 0))
    &&& forall|a: u64|
        #![trigger g(Wide::TenTo, a, 0)]
        (at_most64(0, a) ==> at_most64(ONE_WIDE, g(Wide::TenTo, a, 0))) && (at_most64(a, 0)
            ==> at_most64(g(Wide::TenTo, a, 0), ONE_WIDE))
    &&& forall|a: u64, b: u64|
        #![trigger g(Wide::Div, a, b)]
        positive64(b) ==> (at_most64(0, a) ==> at_most64(0, g(Wide::Div, a, b))) && (at_most64(a, 0)
            ==> at_most64(g(Wide::Div, a, b), 0))
    &&& forall|a: u32, b: u32|
        #![trigger g(Wide::Widen, a as u64, 0), g(Wide::Widen, b as u64, 0)]
        crate::float_bits::at_most(a, b) ==> at_most64(
            g(Wide::Widen, a as u64, 0),
            g(Wide::Widen, b as u64, 0),
        )
    &&& forall|a: u32|
        #![trigger g(Wide::Widen, a as u64, 0)]
        (crate::float_bits::at_most(0, a) ==> at_most64(0, g(Wide::Widen, a as u64, 0))) && (
        crate::float_bits::at_most(a, 0) ==> at_most64(g(Wide::Widen, a as u64, 0), 0)) && (
        crate::float_bits::finite(a) ==> crate::float_bits::finite64(g(Wide::Widen, a as u64, 0)))
    &&& forall|a: u64, b: u64|
        #![trigger crate::wide::narrowed(a, g), crate::wide::narrowed(b, g)]
        at_most64(a, b) ==> crate::float_bits::at_most(
            crate::wide::narrowed(a, g),
            crate::wide::narrowed(b, g),
        )
    &&& crate::wide::narrowed(ONE_WIDE, g) == ONE_BITS
}

/// The terms of a peaking filter are numbers: its width and its amplitude are above zero, and nothing
/// that it is made of is too large.
pub open spec fn peaks(w: Angle, a: u64, g: spec_fn(Wide, u64, u64) -> u64) -> bool {
    &&& positive64(w.alpha)
    &&& positive64(a)
    &&& positive64(g(Wide::Add, ONE_WIDE, g(Wide::Mul, w.alpha, a)))
    &&& positive64(g(Wide::Add, ONE_WIDE, g(Wide::Div, w.alpha, a)))
}

/// A peaking filter goes the way its gain goes: a gain above zero raises, one below zero lowers, a
/// gain of zero does neither, and a larger gain raises more.
pub proof fn law_peaks_go_the_way_they_are_asked(
    rate: u32,
    freq: u32,
    q: u32,
    gain: u32,
    more: u32,
    g: spec_fn(Wide, u64, u64) -> u64,
)
    requires
        orders(g),
        crate::float_bits::finite(gain),
        crate::float_bits::finite(more),
        crate::float_bits::at_most(gain, more),
        peaks(
            crate::dsp::design::angle_of(rate, freq, q, g),
            crate::dsp::design::amplitude_of(gain, g),
            g,
        ),
        peaks(
            crate::dsp::design::angle_of(rate, freq, q, g),
            crate::dsp::design::amplitude_of(more, g),
            g,
        ),
    ensures
        ({
            let (c, d) = (
                crate::dsp::design::peaking(rate, freq, gain, q, g),
                crate::dsp::design::peaking(rate, freq, more, q, g),
            );
            &&& crate::float_bits::at_most(c.b0, d.b0)
            &&& crate::float_bits::at_most(0, gain) ==> crate::float_bits::at_most(ONE_BITS, c.b0)
                && crate::float_bits::at_most(c.b2, c.a2)
            &&& crate::float_bits::at_most(gain, 0) ==> crate::float_bits::at_most(c.b0, ONE_BITS)
                && crate::float_bits::at_most(c.a2, c.b2)
            &&& c.b1 == c.a1
        }),
{
    reveal(orders);
    let w = crate::dsp::design::angle_of(rate, freq, q, g);
    let (x, y) = (g(Wide::Widen, gain as u64, 0), g(Wide::Widen, more as u64, 0));
    let forty = crate::dsp::design::DB_PER_DECADE;
    assert(positive64(forty));
    let (xd, yd) = (g(Wide::Div, x, forty), g(Wide::Div, y, forty));
    assert(at_most64(xd, yd));
    let (a, b) = (
        crate::dsp::design::amplitude_of(gain, g),
        crate::dsp::design::amplitude_of(more, g),
    );
    assert(at_most64(a, b));
    let (ua, ub) = (g(Wide::Mul, w.alpha, a), g(Wide::Mul, w.alpha, b));
    let (da, db) = (g(Wide::Div, w.alpha, a), g(Wide::Div, w.alpha, b));
    assert(at_most64(ua, ub));
    assert(at_most64(db, da));
    let (na, nb) = (g(Wide::Add, ONE_WIDE, ua), g(Wide::Add, ONE_WIDE, ub));
    let (ma, mb) = (g(Wide::Add, ONE_WIDE, da), g(Wide::Add, ONE_WIDE, db));
    assert(at_most64(na, nb) && at_most64(mb, ma));
    assert(at_most64(g(Wide::Div, na, ma), g(Wide::Div, nb, ma)));
    assert(at_most64(g(Wide::Div, nb, ma), g(Wide::Div, nb, mb)));
    let (uo, eo) = (g(Wide::Mul, w.alpha, ONE_WIDE), g(Wide::Div, w.alpha, ONE_WIDE));
    assert(positive64(ONE_WIDE));
    let (low, up) = (g(Wide::Sub, ONE_WIDE, ua), g(Wide::Sub, ONE_WIDE, da));
    let whole = g(Wide::Div, ma, ma);
    if crate::float_bits::at_most(0, gain) {
        assert(at_most64(ONE_WIDE, a));
        assert(at_most64(uo, ua) && at_most64(da, eo));
        assert(at_most64(da, ua));
        assert(at_most64(ma, na));
        assert(at_most64(whole, g(Wide::Div, na, ma)));
        assert(at_most64(low, up));
        assert(at_most64(g(Wide::Div, low, ma), g(Wide::Div, up, ma)));
    }
    if crate::float_bits::at_most(gain, 0) {
        assert(at_most64(a, ONE_WIDE));
        assert(at_most64(ua, uo) && at_most64(eo, da));
        assert(at_most64(ua, da));
        assert(at_most64(na, ma));
        assert(at_most64(g(Wide::Div, na, ma), whole));
        assert(at_most64(up, low));
        assert(at_most64(g(Wide::Div, up, ma), g(Wide::Div, low, ma)));
    }
}

/// Turning the sign of a value turns that of its products and quotients, and adding it then is taking
/// it away; one does not meet undefined values.
#[verifier::opaque]
pub open spec fn signs(g: spec_fn(Wide, u64, u64) -> u64) -> bool {
    &&& forall|a: u64, b: u64|
        #![trigger g(Wide::Mul, a, crate::float_bits::negated64(b))]
        !crate::wide::undefined64(g(Wide::Mul, a, b)) ==> g(
            Wide::Mul,
            a,
            crate::float_bits::negated64(b),
        ) == crate::float_bits::negated64(g(Wide::Mul, a, b))
    &&& forall|a: u64, b: u64|
        #![trigger g(Wide::Mul, crate::float_bits::negated64(a), b)]
        !crate::wide::undefined64(g(Wide::Mul, a, b)) ==> g(
            Wide::Mul,
            crate::float_bits::negated64(a),
            b,
        ) == crate::float_bits::negated64(g(Wide::Mul, a, b))
    &&& forall|a: u64, b: u64|
        #![trigger g(Wide::Div, crate::float_bits::negated64(a), b)]
        !crate::wide::undefined64(g(Wide::Div, a, b)) ==> g(
            Wide::Div,
            crate::float_bits::negated64(a),
            b,
        ) == crate::float_bits::negated64(g(Wide::Div, a, b))
    &&& forall|a: u64, b: u64|
        #![trigger g(Wide::Add, a, crate::float_bits::negated64(b))]
        !crate::wide::undefined64(g(Wide::Sub, a, b)) ==> g(
            Wide::Add,
            a,
            crate::float_bits::negated64(b),
        ) == g(Wide::Sub, a, b)
    &&& forall|a: u64, b: u64|
        #![trigger g(Wide::Sub, a, crate::float_bits::negated64(b))]
        !crate::wide::undefined64(g(Wide::Add, a, b)) ==> g(
            Wide::Sub,
            a,
            crate::float_bits::negated64(b),
        ) == g(Wide::Add, a, b)
    &&& forall|v: u64|
        #![trigger crate::wide::narrowed(crate::float_bits::negated64(v), g)]
        !crate::wide::undefined64(v) ==> crate::wide::narrowed(
            crate::float_bits::negated64(v),
            g,
        ) == crate::float_bits::negated(crate::wide::narrowed(v, g))
}

/// Two frequencies lie as far from a quarter of the rate, one below it and one above, and are treated
/// with the same width.
pub open spec fn mirrored(w: Angle, v: Angle) -> bool {
    v.cos == crate::float_bits::negated64(w.cos) && v.alpha == w.alpha
}

/// What a filter with the given terms gives for an alternating signal another gives for a steady one:
/// they differ in the sign of what belongs to the sample before.
pub open spec fn alternates(
    c: crate::dsp::biquad::Coeffs,
    d: crate::dsp::biquad::Coeffs,
) -> bool {
    &&& d.b0 == c.b0
    &&& d.b1 == crate::float_bits::negated(c.b1)
    &&& d.b2 == c.b2
    &&& d.a1 == crate::float_bits::negated(c.a1)
    &&& d.a2 == c.a2
}

/// A high-pass filter is a low-pass filter mirrored, and for a frequency below a quarter of the rate
/// it lets more of a single sample through.
pub proof fn law_a_high_pass_mirrors_a_low_pass(
    rate: u32,
    freq: u32,
    other: u32,
    q: u32,
    g: spec_fn(Wide, u64, u64) -> u64,
)
    requires
        orders(g),
        signs(g),
        mirrored(
            crate::dsp::design::angle_of(rate, freq, q, g),
            crate::dsp::design::angle_of(rate, other, q, g),
        ),
        ({
            let w = crate::dsp::design::angle_of(rate, freq, q, g);
            let (sum, a0) = (g(Wide::Add, ONE_WIDE, w.cos), g(Wide::Add, ONE_WIDE, w.alpha));
            let turn = g(Wide::Mul, MINUS_TWO_WIDE, w.cos);
            &&& crate::float_bits::finite64(w.cos)
            &&& positive64(a0)
            &&& !crate::wide::undefined64(sum)
            &&& !crate::wide::undefined64(g(Wide::Div, sum, a0))
            &&& !crate::wide::undefined64(turn)
            &&& !crate::wide::undefined64(g(Wide::Div, turn, a0))
        }),
    ensures
        alternates(
            crate::dsp::design::lowpass(rate, other, q, g),
            crate::dsp::design::highpass(rate, freq, q, g),
        ),
        crate::dsp::design::lowpass(rate, freq, q, g).b0 == crate::dsp::design::lowpass(
            rate,
            freq,
            q,
            g,
        ).b2,
        at_most64(0, crate::dsp::design::angle_of(rate, freq, q, g).cos)
            ==> crate::float_bits::at_most(
            crate::dsp::design::lowpass(rate, freq, q, g).b0,
            crate::dsp::design::highpass(rate, freq, q, g).b0,
        ),
{
    reveal(orders);
    reveal(signs);
    let w = crate::dsp::design::angle_of(rate, freq, q, g);
    let (sum, a0) = (g(Wide::Add, ONE_WIDE, w.cos), g(Wide::Add, ONE_WIDE, w.alpha));
    let difference = g(Wide::Sub, ONE_WIDE, w.cos);
    assert(g(Wide::Sub, ONE_WIDE, crate::float_bits::negated64(w.cos)) == sum);
    let turn = g(Wide::Mul, MINUS_TWO_WIDE, w.cos);
    let back = g(Wide::Mul, MINUS_TWO_WIDE, crate::float_bits::negated64(w.cos));
    assert(back == crate::float_bits::negated64(turn));
    let ratio = g(Wide::Div, crate::float_bits::negated64(turn), a0);
    assert(ratio == crate::float_bits::negated64(g(Wide::Div, turn, a0)));
    let steady = g(Wide::Div, crate::float_bits::negated64(sum), a0);
    assert(steady == crate::float_bits::negated64(g(Wide::Div, sum, a0)));
    lemma_twice(crate::wide::narrowed(g(Wide::Div, turn, a0), g));
    if at_most64(0, w.cos) {
        assert(positive64(TWO_WIDE) && positive64(ONE_WIDE));
        assert(at_most64(difference, ONE_WIDE)) by {
            assert(at_most64(difference, g(Wide::Sub, ONE_WIDE, 0)));
        }
        assert(at_most64(ONE_WIDE, sum)) by {
            assert(at_most64(g(Wide::Add, ONE_WIDE, 0), sum));
        }
        let (x, y) = (g(Wide::Div, difference, TWO_WIDE), g(Wide::Div, sum, TWO_WIDE));
        assert(at_most64(x, y));
        assert(at_most64(g(Wide::Div, x, a0), g(Wide::Div, y, a0)));
    }
}

proof fn lemma_twice(v: u32)
    ensures
        crate::float_bits::negated(crate::float_bits::negated(v)) == v,
{
}

/// The terms of a pair of shelves are defined, and what they are divided by is above zero.
pub open spec fn shelves(w: Angle, a: u64, g: spec_fn(Wide, u64, u64) -> u64) -> bool {
    let t = crate::dsp::design::shelf_terms(w, a, g);
    let (plus, minus) = (g(Wide::Add, a, ONE_WIDE), g(Wide::Sub, a, ONE_WIDE));
    let (low, high) = (g(Wide::Add, t.sum_less, t.slope), g(Wide::Add, t.sum_more, t.slope));
    let (b1, a1) = (
        g(Wide::Mul, g(Wide::Mul, TWO_WIDE, a), t.diff_more),
        g(Wide::Mul, TWO_WIDE, t.diff_less),
    );
    &&& positive64(a)
    &&& crate::float_bits::finite64(w.cos)
    &&& crate::float_bits::finite64(plus)
    &&& crate::float_bits::finite64(minus)
    &&& crate::float_bits::finite64(t.slope)
    &&& positive64(low)
    &&& positive64(high)
    &&& crate::float_bits::finite64(g(Wide::Mul, minus, w.cos))
    &&& !crate::wide::undefined64(g(Wide::Mul, plus, w.cos))
    &&& !crate::wide::undefined64(t.sum_less)
    &&& !crate::wide::undefined64(t.sum_more)
    &&& !crate::wide::undefined64(t.diff_less)
    &&& !crate::wide::undefined64(t.diff_more)
    &&& !crate::wide::undefined64(g(Wide::Mul, TWO_WIDE, a))
    &&& !crate::wide::undefined64(b1)
    &&& !crate::wide::undefined64(a1)
    &&& !crate::wide::undefined64(g(Wide::Div, b1, low))
    &&& !crate::wide::undefined64(g(Wide::Div, a1, low))
    &&& positive64(g(Wide::Mul, a, low))
    &&& positive64(g(Wide::Mul, a, high))
}

/// A high shelf is a low shelf mirrored. Where a shelf with a gain above zero begins below a quarter
/// of the rate, the high one, which raises all that is above, lets more of a single sample through;
/// where its gain is below zero, less.
pub proof fn law_a_high_shelf_mirrors_a_low_shelf(
    rate: u32,
    freq: u32,
    other: u32,
    gain: u32,
    q: u32,
    g: spec_fn(Wide, u64, u64) -> u64,
)
    requires
        orders(g),
        signs(g),
        crate::float_bits::finite(gain),
        mirrored(
            crate::dsp::design::angle_of(rate, freq, q, g),
            crate::dsp::design::angle_of(rate, other, q, g),
        ),
        shelves(
            crate::dsp::design::angle_of(rate, freq, q, g),
            crate::dsp::design::amplitude_of(gain, g),
            g,
        ),
    ensures
        alternates(
            crate::dsp::design::low_shelf(rate, other, gain, q, g),
            crate::dsp::design::high_shelf(rate, freq, gain, q, g),
        ),
        at_most64(0, crate::dsp::design::angle_of(rate, freq, q, g).cos) ==> {
            let (low, high) = (
                crate::dsp::design::low_shelf(rate, freq, gain, q, g),
                crate::dsp::design::high_shelf(rate, freq, gain, q, g),
            );
            &&& crate::float_bits::at_most(0, gain) ==> crate::float_bits::at_most(low.b0, high.b0)
            &&& crate::float_bits::at_most(gain, 0) ==> crate::float_bits::at_most(high.b0, low.b0)
        },
{
    let (w, v) = (
        crate::dsp::design::angle_of(rate, freq, q, g),
        crate::dsp::design::angle_of(rate, other, q, g),
    );
    let a = crate::dsp::design::amplitude_of(gain, g);
    lemma_terms(w, v, a, g);
    lemma_outer(w, a, g);
    let t = crate::dsp::design::shelf_terms(w, a, g);
    let (b1, a1) = (
        g(Wide::Mul, g(Wide::Mul, TWO_WIDE, a), t.diff_more),
        g(Wide::Mul, TWO_WIDE, t.diff_less),
    );
    let low = g(Wide::Add, t.sum_less, t.slope);
    lemma_twice(crate::wide::narrowed(g(Wide::Div, a1, low), g));
    if at_most64(0, w.cos) {
        lemma_sides(gain, w, g);
    }
}

proof fn lemma_terms(w: Angle, v: Angle, a: u64, g: spec_fn(Wide, u64, u64) -> u64)
    requires
        signs(g),
        mirrored(w, v),
        shelves(w, a, g),
    ensures
        ({
            let (s, t) = (
                crate::dsp::design::shelf_terms(w, a, g),
                crate::dsp::design::shelf_terms(v, a, g),
            );
            &&& t.sum_less == s.sum_more
            &&& t.sum_more == s.sum_less
            &&& t.diff_less == s.diff_more
            &&& t.diff_more == s.diff_less
            &&& t.slope == s.slope
        }),
{
    reveal(signs);
    let (plus, minus) = (g(Wide::Add, a, ONE_WIDE), g(Wide::Sub, a, ONE_WIDE));
    let (m, p) = (g(Wide::Mul, minus, w.cos), g(Wide::Mul, plus, w.cos));
    assert(g(Wide::Mul, minus, crate::float_bits::negated64(w.cos))
        == crate::float_bits::negated64(m));
    assert(g(Wide::Mul, plus, crate::float_bits::negated64(w.cos)) == crate::float_bits::negated64(
        p,
    ));
    assert(g(Wide::Sub, plus, crate::float_bits::negated64(m)) == g(Wide::Add, plus, m));
    assert(g(Wide::Add, plus, crate::float_bits::negated64(m)) == g(Wide::Sub, plus, m));
    assert(g(Wide::Sub, minus, crate::float_bits::negated64(p)) == g(Wide::Add, minus, p));
    assert(g(Wide::Add, minus, crate::float_bits::negated64(p)) == g(Wide::Sub, minus, p));
}

proof fn lemma_outer(w: Angle, a: u64, g: spec_fn(Wide, u64, u64) -> u64)
    requires
        signs(g),
        shelves(w, a, g),
    ensures
        ({
            let t = crate::dsp::design::shelf_terms(w, a, g);
            let low = g(Wide::Add, t.sum_less, t.slope);
            let (b1, a1) = (
                g(Wide::Mul, g(Wide::Mul, TWO_WIDE, a), t.diff_more),
                g(Wide::Mul, TWO_WIDE, t.diff_less),
            );
            let (c1, d1) = (
                g(Wide::Mul, g(Wide::Mul, MINUS_TWO_WIDE, a), t.diff_more),
                g(Wide::Mul, MINUS_TWO_WIDE, t.diff_less),
            );
            &&& crate::wide::narrowed(g(Wide::Div, c1, low), g) == crate::float_bits::negated(
                crate::wide::narrowed(g(Wide::Div, b1, low), g),
            )
            &&& crate::wide::narrowed(g(Wide::Div, d1, low), g) == crate::float_bits::negated(
                crate::wide::narrowed(g(Wide::Div, a1, low), g),
            )
        }),
{
    reveal(signs);
    let t = crate::dsp::design::shelf_terms(w, a, g);
    let low = g(Wide::Add, t.sum_less, t.slope);
    let minus_two = crate::float_bits::negated64(TWO_WIDE);
    assert(minus_two == MINUS_TWO_WIDE);
    let two = g(Wide::Mul, TWO_WIDE, a);
    assert(g(Wide::Mul, minus_two, a) == crate::float_bits::negated64(two));
    let b1 = g(Wide::Mul, two, t.diff_more);
    assert(g(Wide::Mul, crate::float_bits::negated64(two), t.diff_more)
        == crate::float_bits::negated64(b1));
    let a1 = g(Wide::Mul, TWO_WIDE, t.diff_less);
    assert(g(Wide::Mul, minus_two, t.diff_less) == crate::float_bits::negated64(a1));
    assert(g(Wide::Div, crate::float_bits::negated64(b1), low) == crate::float_bits::negated64(
        g(Wide::Div, b1, low),
    ));
    assert(g(Wide::Div, crate::float_bits::negated64(a1), low) == crate::float_bits::negated64(
        g(Wide::Div, a1, low),
    ));
}

proof fn lemma_sides(gain: u32, w: Angle, g: spec_fn(Wide, u64, u64) -> u64)
    requires
        orders(g),
        crate::float_bits::finite(gain),
        shelves(w, crate::dsp::design::amplitude_of(gain, g), g),
        at_most64(0, w.cos),
    ensures
        ({
            let a = crate::dsp::design::amplitude_of(gain, g);
            let t = crate::dsp::design::shelf_terms(w, a, g);
            let (low, high) = (
                g(Wide::Add, t.sum_less, t.slope),
                g(Wide::Add, t.sum_more, t.slope),
            );
            let (lesser, greater) = (
                crate::wide::narrowed(g(Wide::Div, g(Wide::Mul, a, low), high), g),
                crate::wide::narrowed(g(Wide::Div, g(Wide::Mul, a, high), low), g),
            );
            &&& crate::float_bits::at_most(0, gain) ==> crate::float_bits::at_most(lesser, greater)
            &&& crate::float_bits::at_most(gain, 0) ==> crate::float_bits::at_most(greater, lesser)
        }),
{
    reveal(orders);
    let x = g(Wide::Widen, gain as u64, 0);
    let forty = crate::dsp::design::DB_PER_DECADE;
    assert(positive64(forty));
    let xd = g(Wide::Div, x, forty);
    let a = crate::dsp::design::amplitude_of(gain, g);
    let t = crate::dsp::design::shelf_terms(w, a, g);
    let (plus, minus) = (g(Wide::Add, a, ONE_WIDE), g(Wide::Sub, a, ONE_WIDE));
    let m = g(Wide::Mul, minus, w.cos);
    let (low, high) = (g(Wide::Add, t.sum_less, t.slope), g(Wide::Add, t.sum_more, t.slope));
    let (p, r) = (g(Wide::Mul, a, low), g(Wide::Mul, a, high));
    let (less0, more0) = (g(Wide::Sub, plus, 0), g(Wide::Add, plus, 0));
    if crate::float_bits::at_most(0, gain) {
        assert(at_most64(ONE_WIDE, a));
        assert(at_most64(0, minus));
        assert(at_most64(0, m));
        assert(at_most64(t.sum_less, less0) && at_most64(more0, t.sum_more));
        assert(at_most64(t.sum_less, t.sum_more));
        assert(at_most64(low, high));
        assert(at_most64(p, r));
        assert(at_most64(g(Wide::Div, p, high), g(Wide::Div, r, high)));
        assert(at_most64(g(Wide::Div, r, high), g(Wide::Div, r, low)));
    }
    if crate::float_bits::at_most(gain, 0) {
        assert(at_most64(a, ONE_WIDE));
        assert(at_most64(minus, g(Wide::Sub, ONE_WIDE, ONE_WIDE)));
        assert(at_most64(minus, 0));
        assert(at_most64(m, 0));
        assert(at_most64(less0, t.sum_less) && at_most64(t.sum_more, more0));
        assert(at_most64(t.sum_more, t.sum_less));
        assert(at_most64(high, low));
        assert(at_most64(r, p));
        assert(at_most64(g(Wide::Div, r, low), g(Wide::Div, p, low)));
        assert(at_most64(g(Wide::Div, p, low), g(Wide::Div, p, high)));
    }
}

/// How far a frequency, kept from 1 Hz up to 0.495 of the rate, turns within a sample.
pub open spec fn turned(rate: u32, freq: u32, g: spec_fn(Wide, u64, u64) -> u64) -> u64 {
    let fs = g(Wide::Widen, rate as u64, 0);
    let kept = crate::wide::between64(
        g(Wide::Widen, freq as u64, 0),
        ONE_WIDE,
        g(Wide::Mul, fs, crate::dsp::design::TOP_SHARE),
    );
    g(Wide::Div, g(Wide::Mul, TURN_WIDE, kept), fs)
}

/// A higher frequency turns further within a sample, and up to half a turn its cosine is smaller.
pub proof fn law_higher_frequencies_turn_further(
    rate: u32,
    freq: u32,
    more: u32,
    q: u32,
    g: spec_fn(Wide, u64, u64) -> u64,
)
    requires
        orders(g),
        crate::float_bits::at_most(freq, more),
        positive64(g(Wide::Widen, rate as u64, 0)),
        at_most64(
            ONE_WIDE,
            g(Wide::Mul, g(Wide::Widen, rate as u64, 0), crate::dsp::design::TOP_SHARE),
        ),
        at_most64(0, turned(rate, freq, g)),
        at_most64(turned(rate, more, g), crate::dsp::design::HALF_TURN),
        forall|a: u64, b: u64|
            #![trigger g(Wide::Cos, a, 0), g(Wide::Cos, b, 0)]
            at_most64(0, a) && at_most64(a, b) && at_most64(b, crate::dsp::design::HALF_TURN) ==> at_most64(
                g(Wide::Cos, b, 0),
                g(Wide::Cos, a, 0),
            ),
    ensures
        at_most64(turned(rate, freq, g), turned(rate, more, g)),
        at_most64(
            crate::dsp::design::angle_of(rate, more, q, g).cos,
            crate::dsp::design::angle_of(rate, freq, q, g).cos,
        ),
{
    reveal(orders);
    let fs = g(Wide::Widen, rate as u64, 0);
    let top = g(Wide::Mul, fs, crate::dsp::design::TOP_SHARE);
    let (x, y) = (g(Wide::Widen, freq as u64, 0), g(Wide::Widen, more as u64, 0));
    assert(at_most64(x, y));
    let (m, n) = (
        crate::wide::between64(x, ONE_WIDE, top),
        crate::wide::between64(y, ONE_WIDE, top),
    );
    assert(at_most64(m, n));
    assert(positive64(TURN_WIDE));
    assert(at_most64(g(Wide::Mul, TURN_WIDE, m), g(Wide::Mul, TURN_WIDE, n)));
}

/// A larger quality makes a filter narrower, whatever its frequency.
pub proof fn law_quality_narrows(
    rate: u32,
    freq: u32,
    q: u32,
    more: u32,
    g: spec_fn(Wide, u64, u64) -> u64,
)
    requires
        orders(g),
        crate::float_bits::finite(more),
        crate::float_bits::at_most(q, more),
        positive64(
            g(
                Wide::Mul,
                TWO_WIDE,
                crate::wide::larger64(
                    g(Wide::Widen, q as u64, 0),
                    crate::dsp::design::LEAST_QUALITY,
                ),
            ),
        ),
        at_most64(0, g(Wide::Sin, turned(rate, freq, g), 0)),
        crate::float_bits::finite64(g(Wide::Sin, turned(rate, freq, g), 0)),
    ensures
        at_most64(
            crate::dsp::design::angle_of(rate, freq, more, g).alpha,
            crate::dsp::design::angle_of(rate, freq, q, g).alpha,
        ),
        crate::dsp::design::angle_of(rate, freq, more, g).cos == crate::dsp::design::angle_of(
            rate,
            freq,
            q,
            g,
        ).cos,
{
    reveal(orders);
    let (x, y) = (g(Wide::Widen, q as u64, 0), g(Wide::Widen, more as u64, 0));
    assert(at_most64(x, y));
    let least = crate::dsp::design::LEAST_QUALITY;
    let (m, n) = (crate::wide::larger64(x, least), crate::wide::larger64(y, least));
    assert(at_most64(m, n));
    assert(positive64(TWO_WIDE));
    assert(at_most64(g(Wide::Mul, TWO_WIDE, m), g(Wide::Mul, TWO_WIDE, n)));
}

/// The bass boost raises what is below its frequency: with an amount above zero it lets less of a
/// single sample through than a shelf of the same amount above that frequency, and with one below zero
/// more. The notch of the spatializer takes away.
pub proof fn law_the_bass_is_boosted_and_the_notch_takes_away(
    rate: u32,
    amount: u32,
    g: spec_fn(Wide, u64, u64) -> u64,
)
    requires
        orders(g),
        crate::float_bits::finite(amount),
        shelves(
            crate::dsp::design::angle_of(
                rate,
                crate::dsp::tuning::SHELF_HZ,
                crate::dsp::tuning::SHELF_Q,
                g,
            ),
            crate::dsp::design::amplitude_of(amount, g),
            g,
        ),
        at_most64(
            0,
            crate::dsp::design::angle_of(
                rate,
                crate::dsp::tuning::SHELF_HZ,
                crate::dsp::tuning::SHELF_Q,
                g,
            ).cos,
        ),
        peaks(
            crate::dsp::design::angle_of(
                rate,
                crate::dsp::tuning::NOTCH_HZ,
                crate::dsp::tuning::NOTCH_Q,
                g,
            ),
            crate::dsp::design::amplitude_of(crate::dsp::tuning::NOTCH_DB, g),
            g,
        ),
    ensures
        ({
            let (low, high) = (
                crate::dsp::stages::shelf_at(rate, amount, g),
                crate::dsp::design::high_shelf(
                    rate,
                    crate::dsp::tuning::SHELF_HZ,
                    amount,
                    crate::dsp::tuning::SHELF_Q,
                    g,
                ),
            );
            &&& crate::float_bits::at_most(0, amount) ==> crate::float_bits::at_most(
                low.b0,
                high.b0,
            )
            &&& crate::float_bits::at_most(amount, 0) ==> crate::float_bits::at_most(
                high.b0,
                low.b0,
            )
        }),
        crate::float_bits::at_most(crate::dsp::stages::notch_of(rate, g).b0, ONE_BITS),
{
    let w = crate::dsp::design::angle_of(
        rate,
        crate::dsp::tuning::SHELF_HZ,
        crate::dsp::tuning::SHELF_Q,
        g,
    );
    lemma_sides(amount, w, g);
    let notch = crate::dsp::tuning::NOTCH_DB;
    assert(crate::float_bits::at_most(notch, 0));
    law_peaks_go_the_way_they_are_asked(
        rate,
        crate::dsp::tuning::NOTCH_HZ,
        crate::dsp::tuning::NOTCH_Q,
        notch,
        notch,
        g,
    );
}

} // verus!
