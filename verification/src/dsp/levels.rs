//! What settings in dB do to what is heard: gains, the makeup and the curve of the compander, and the
//! ceiling of the limiter.
//!
//! The laws hold of any arithmetic that orders values as numbers are ordered.

use vstd::prelude::*;
use crate::dsp::arith::{Calc, HALF_BITS};
use crate::dsp::band::{BandView, Curve};
use crate::dsp::bass::Gain;
use crate::dsp::limiter::Limiter;
use crate::dsp::stages::{CompanderStage, EqStage, HeadphoneStage};
use crate::float_bits::{ONE_BITS, TWO_BITS};
use crate::types::{CompanderState, EqState, HeadphoneCorrectionState, OutputState};
use crate::wide::Wide;

verus! {

/// The bits of -20.
pub const MINUS_TWENTY: u32 = 0xc1a0_0000;

/// A level in dB that one factor stands for is not above one that another stands for; no dB are the
/// factor one, twenty dB are ten, and twenty dB less are below one.
pub open spec fn factors_follow(
    db: u32,
    factor: u32,
    other_db: u32,
    other: u32,
) -> bool {
    &&& crate::float_bits::at_most(db, other_db) ==> crate::float_bits::at_most(factor, other)
    &&& crate::float_bits::at_most(other_db, db) ==> crate::float_bits::at_most(other, factor)
    &&& crate::dsp::numbers::zero(db) ==> crate::float_bits::same(factor, ONE_BITS)
    &&& crate::float_bits::same(db, crate::dsp::tuning::TWENTY_BITS) ==> crate::float_bits::same(
        factor,
        crate::dsp::numbers::TEN,
    )
    &&& crate::float_bits::at_most(db, MINUS_TWENTY) ==> crate::float_bits::less(factor, ONE_BITS)
    &&& crate::float_bits::at_most(0, factor)
}

/// The factors of levels in dB.
pub proof fn lemma_factors(a: u32, b: u32, g: spec_fn(Calc, u32, u32) -> u32)
    requires
        crate::dsp::numbers::ordinary(g),
        !crate::float_bits::undefined(a),
        !crate::float_bits::undefined(b),
    ensures
        factors_follow(
            a,
            crate::dsp::tuning::factor_of(a, g),
            b,
            crate::dsp::tuning::factor_of(b, g),
        ),
{
    reveal(crate::dsp::numbers::ordinary);
    let twenty = crate::dsp::tuning::TWENTY_BITS;
    assert(crate::dsp::numbers::positive(twenty));
    assert(crate::dsp::numbers::zero(g(Calc::Div, 0, twenty)));
    assert(crate::float_bits::same(g(Calc::TenTo, g(Calc::Div, 0, twenty), 0), ONE_BITS));
    let (x, y) = (g(Calc::Div, a, twenty), g(Calc::Div, b, twenty));
    assert(crate::float_bits::at_most(a, b) ==> crate::float_bits::at_most(x, y));
    assert(crate::float_bits::at_most(b, a) ==> crate::float_bits::at_most(y, x));
    assert(crate::float_bits::same(a, twenty) ==> crate::float_bits::same(x, ONE_BITS));
    assert(crate::float_bits::same(a, twenty) ==> {
        &&& crate::float_bits::at_most(x, ONE_BITS)
        &&& crate::float_bits::at_most(ONE_BITS, x)
        &&& crate::float_bits::same(g(Calc::TenTo, x, 0), g(Calc::TenTo, ONE_BITS, 0))
    });
    assert(crate::float_bits::at_most(x, x));
    let whole = g(Calc::Div, twenty, twenty);
    assert(crate::float_bits::same(whole, ONE_BITS));
    let back = g(Calc::Div, MINUS_TWENTY, twenty);
    assert(MINUS_TWENTY == crate::float_bits::negated(twenty));
    assert(crate::float_bits::same(back, crate::float_bits::negated(whole)));
    assert(crate::float_bits::at_most(back, crate::dsp::numbers::LITTLE_BELOW));
    assert(crate::float_bits::at_most(a, MINUS_TWENTY) ==> crate::float_bits::at_most(x, back));
}

/// The gain in front of the bands of the equalizer is the one that is asked for.
pub proof fn law_pre_gain_goes_the_way_it_is_asked<
    F: Fn(Calc, u32, u32) -> u32,
    W: Fn(Wide, u64, u64) -> u64,
>(
    before: (EqStage, EqStage),
    params: (EqState, EqState),
    f: F,
    w: W,
    after: (EqStage, EqStage),
    g: spec_fn(Calc, u32, u32) -> u32,
    h: spec_fn(Wide, u64, u64) -> u64,
)
    requires
        crate::dsp::arith::computes(f, g),
        crate::wide::computes(w, h),
        crate::dsp::numbers::ordinary(g),
        crate::dsp::stages::eq_set(before.0, params.0, f, w, after.0),
        crate::dsp::stages::eq_set(before.1, params.1, f, w, after.1),
        !crate::float_bits::undefined(params.0.pre_gain),
        !crate::float_bits::undefined(params.1.pre_gain),
    ensures
        factors_follow(
            params.0.pre_gain,
            after.0.stage@.gain,
            params.1.pre_gain,
            after.1.stage@.gain,
        ),
{
    lemma_factors(params.0.pre_gain, params.1.pre_gain, g);
}

/// The gain in front of a correction is the one that its profile asks for.
pub proof fn law_preamp_goes_the_way_it_is_asked<
    F: Fn(Calc, u32, u32) -> u32,
    W: Fn(Wide, u64, u64) -> u64,
>(
    before: (HeadphoneStage, HeadphoneStage),
    params: (HeadphoneCorrectionState, HeadphoneCorrectionState),
    f: F,
    w: W,
    after: (HeadphoneStage, HeadphoneStage),
    g: spec_fn(Calc, u32, u32) -> u32,
    h: spec_fn(Wide, u64, u64) -> u64,
)
    requires
        crate::dsp::arith::computes(f, g),
        crate::wide::computes(w, h),
        crate::dsp::numbers::ordinary(g),
        crate::dsp::stages::headphone_set(before.0, params.0, f, w, after.0),
        crate::dsp::stages::headphone_set(before.1, params.1, f, w, after.1),
        !crate::float_bits::undefined(params.0.preamp),
        !crate::float_bits::undefined(params.1.preamp),
    ensures
        factors_follow(
            params.0.preamp,
            after.0.stage@.gain,
            params.1.preamp,
            after.1.stage@.gain,
        ),
{
    lemma_factors(params.0.preamp, params.1.preamp, g);
}

/// The gain at the end of the chain is the one that is asked for.
pub proof fn law_output_gain_goes_the_way_it_is_asked<F: Fn(Calc, u32, u32) -> u32>(
    params: (OutputState, OutputState),
    f: F,
    after: (Gain, Gain),
    g: spec_fn(Calc, u32, u32) -> u32,
)
    requires
        crate::dsp::arith::computes(f, g),
        crate::dsp::numbers::ordinary(g),
        crate::dsp::stages::gain_set(params.0, f, after.0),
        crate::dsp::stages::gain_set(params.1, f, after.1),
        !crate::float_bits::undefined(params.0.gain_db),
        !crate::float_bits::undefined(params.1.gain_db),
    ensures
        factors_follow(
            params.0.gain_db,
            after.0.factor,
            params.1.gain_db,
            after.1.factor,
        ),
{
    lemma_factors(params.0.gain_db, params.1.gain_db, g);
}

/// The ceiling of the limiter is the one that is asked for, and the limiter is on where it is asked
/// to be; what it holds back stays.
pub proof fn law_the_ceiling_is_where_it_is_asked<F: Fn(Calc, u32, u32) -> u32>(
    before: (Limiter, Limiter),
    params: (OutputState, OutputState),
    f: F,
    after: (Limiter, Limiter),
    g: spec_fn(Calc, u32, u32) -> u32,
)
    requires
        crate::dsp::arith::computes(f, g),
        crate::dsp::numbers::ordinary(g),
        crate::dsp::stages::limiter_set(before.0, params.0, f, after.0),
        crate::dsp::stages::limiter_set(before.1, params.1, f, after.1),
        !crate::float_bits::undefined(params.0.ceiling_db),
        !crate::float_bits::undefined(params.1.ceiling_db),
    ensures
        factors_follow(
            params.0.ceiling_db,
            after.0@.ceiling,
            params.1.ceiling_db,
            after.1@.ceiling,
        ),
        after.0@.enabled == params.0.limiter_enabled,
        after.0@.gain == before.0@.gain,
        after.0@.lookahead == before.0@.lookahead,
        after.0@.release == before.0@.release,
{
    lemma_factors(params.0.ceiling_db, params.1.ceiling_db, g);
}

/// The bits of minus one.
pub const MINUS_ONE: u32 = 0xbf80_0000;

/// Settings that a compander takes anew.
pub open spec fn taken_anew(before: CompanderStage, params: CompanderState) -> bool {
    !(before.applied matches Some(last) && crate::dsp::compander::same_settings(last, params))
}

/// More makeup makes every band louder: none leaves it as it is, a dB or more raises it, and a dB or
/// more below zero lowers it.
pub proof fn law_makeup_goes_the_way_it_is_asked<F: Fn(Calc, u32, u32) -> u32>(
    before: (CompanderStage, CompanderStage),
    params: (CompanderState, CompanderState),
    f: F,
    after: (CompanderStage, CompanderStage),
    i: int,
    g: spec_fn(Calc, u32, u32) -> u32,
)
    requires
        crate::dsp::arith::computes(f, g),
        crate::dsp::numbers::ordinary(g),
        crate::dsp::stages::compander_set(before.0, params.0, f, after.0),
        crate::dsp::stages::compander_set(before.1, params.1, f, after.1),
        taken_anew(before.0, params.0),
        taken_anew(before.1, params.1),
        0 <= i < before.0.stage@.bands.len(),
        0 <= i < before.1.stage@.bands.len(),
        !crate::float_bits::undefined(params.0.makeup_db),
        crate::float_bits::at_most(params.0.makeup_db, params.1.makeup_db),
    ensures
        crate::float_bits::at_most(after.0.stage@.bands[i].makeup, after.1.stage@.bands[i].makeup),
        crate::dsp::numbers::zero(params.0.makeup_db) ==> crate::float_bits::same(
            after.0.stage@.bands[i].makeup,
            ONE_BITS,
        ),
        crate::float_bits::at_most(ONE_BITS, params.0.makeup_db) ==> crate::float_bits::less(
            ONE_BITS,
            after.0.stage@.bands[i].makeup,
        ),
        crate::float_bits::at_most(params.0.makeup_db, MINUS_ONE) ==> crate::float_bits::less(
            after.0.stage@.bands[i].makeup,
            ONE_BITS,
        ),
{
    reveal(crate::dsp::numbers::ordinary);
    let nepers = crate::dsp::tuning::NEPERS;
    assert(crate::dsp::numbers::positive(nepers));
    let (a, b) = (params.0.makeup_db, params.1.makeup_db);
    let (x, y) = (g(Calc::Mul, a, nepers), g(Calc::Mul, b, nepers));
    assert(crate::float_bits::at_most(x, y));
    let none = g(Calc::Mul, 0, nepers);
    assert(crate::dsp::numbers::zero(none));
    assert(crate::float_bits::same(g(Calc::Exp, none, 0), ONE_BITS));
    assert(crate::dsp::numbers::zero(a) ==> crate::dsp::numbers::zero(x));
    let one = g(Calc::Mul, ONE_BITS, nepers);
    assert(crate::float_bits::same(one, nepers));
    let less = g(Calc::Mul, MINUS_ONE, nepers);
    assert(MINUS_ONE == crate::float_bits::negated(ONE_BITS));
    assert(crate::float_bits::same(less, crate::float_bits::negated(one)));
    assert(crate::float_bits::at_most(a, MINUS_ONE) ==> crate::float_bits::at_most(x, less));
    assert(crate::float_bits::at_most(less, crate::dsp::numbers::LITTLE_BELOW));
}

/// A curve that settings of the compander give its bands, whose numbers are not too large.
pub open spec fn curve_taken(c: Curve, params: CompanderState) -> bool {
    &&& c == crate::dsp::tuning::curve_of(params)
    &&& crate::dsp::numbers::within(params.threshold_db, 20)
    &&& crate::dsp::numbers::within(params.gate_db, 20)
    &&& crate::dsp::numbers::within(params.ratio, 20)
    &&& crate::dsp::numbers::within(params.expander_ratio, 20)
}

/// A band leaves a level alone that lies neither above its threshold nor below `gate_db`. Above the
/// threshold it brings it down, where the ratio is two or more and there is no knee, and the more so
/// the larger the ratio is; below `gate_db` it brings it down too, where the expander has a ratio of two
/// or more.
pub proof fn law_loud_and_quiet_levels_are_brought_down(
    c: Curve,
    d: Curve,
    params: CompanderState,
    harder: CompanderState,
    level: u32,
    g: spec_fn(Calc, u32, u32) -> u32,
)
    requires
        crate::dsp::numbers::ordinary(g),
        curve_taken(c, params),
        curve_taken(d, harder),
        crate::dsp::numbers::within(level, 20),
        crate::dsp::numbers::zero(params.knee_db),
        harder == (CompanderState { ratio: harder.ratio, ..params }),
        crate::float_bits::at_most(params.ratio, harder.ratio),
    ensures
        crate::float_bits::at_most(params.gate_db, level) && crate::float_bits::at_most(
            level,
            params.threshold_db,
        ) ==> crate::dsp::band::curve_gain(c, level, g) == 0,
        crate::float_bits::at_most(params.gate_db, level) && crate::float_bits::at_most(
            TWO_BITS,
            params.ratio,
        ) && crate::dsp::numbers::reaches(g(Calc::Sub, level, params.threshold_db), 40)
            ==> crate::float_bits::less(crate::dsp::band::curve_gain(c, level, g), 0),
        crate::float_bits::at_most(params.gate_db, level) ==> crate::float_bits::at_most(
            crate::dsp::band::curve_gain(d, level, g),
            crate::dsp::band::curve_gain(c, level, g),
        ),
        crate::float_bits::at_most(level, params.threshold_db) && crate::float_bits::at_most(
            TWO_BITS,
            params.expander_ratio,
        ) && crate::dsp::numbers::reaches(g(Calc::Sub, params.gate_db, level), 40)
            ==> crate::float_bits::less(crate::dsp::band::curve_gain(c, level, g), 0),
{
    reveal(crate::dsp::numbers::ordinary);
    let over = g(Calc::Sub, level, c.threshold);
    assert(crate::dsp::numbers::within(over, 21));
    assert(crate::dsp::numbers::positive(c.ratio) && crate::dsp::numbers::positive(d.ratio));
    assert(crate::float_bits::at_most(c.ratio, d.ratio));
    let (p, q) = (g(Calc::Div, ONE_BITS, c.ratio), g(Calc::Div, ONE_BITS, d.ratio));
    assert(crate::float_bits::at_most(q, p));
    let one = g(Calc::Div, ONE_BITS, ONE_BITS);
    assert(crate::float_bits::at_most(p, one));
    let none = g(Calc::Div, 0, c.ratio);
    assert(crate::float_bits::at_most(none, p));
    let (slope, steep) = (g(Calc::Sub, ONE_BITS, p), g(Calc::Sub, ONE_BITS, q));
    assert(crate::float_bits::at_most(slope, steep));
    assert(crate::dsp::numbers::within(ONE_BITS, 0) && crate::dsp::numbers::within(p, 0));
    assert(crate::dsp::numbers::within(slope, 1));
    let none_d = g(Calc::Div, 0, d.ratio);
    assert(crate::float_bits::at_most(none_d, q));
    assert(crate::dsp::numbers::within(q, 0));
    assert(crate::dsp::numbers::within(steep, 1));
    let flat = g(Calc::Sub, ONE_BITS, one);
    assert(crate::float_bits::at_most(flat, slope));
    let (fall, deep) = (g(Calc::Mul, over, slope), g(Calc::Mul, over, steep));
    assert(crate::dsp::numbers::within(fall, 22) && crate::dsp::numbers::within(deep, 22));
    if crate::float_bits::less(c.threshold, level) {
        assert(crate::float_bits::less(0, over));
        assert(crate::float_bits::at_most(fall, deep));
        assert(crate::float_bits::at_most(g(Calc::Sub, 0, deep), g(Calc::Sub, 0, fall)));
    }
    if crate::float_bits::at_most(TWO_BITS, params.ratio) && crate::dsp::numbers::reaches(over, 40) {
        let half = g(Calc::Div, ONE_BITS, TWO_BITS);
        assert(crate::float_bits::at_most(p, half));
        let least = g(Calc::Sub, ONE_BITS, half);
        assert(crate::float_bits::at_most(least, slope));
        let exact = g(Calc::Sub, ONE_BITS, HALF_BITS);
        assert(crate::float_bits::same(half, HALF_BITS));
        assert(crate::float_bits::at_most(exact, least));
        assert(crate::dsp::numbers::reaches(slope, 1));
        assert(crate::dsp::numbers::reaches(fall, 41));
        assert(crate::float_bits::less(c.threshold, level)) by {
            assert(crate::float_bits::at_most(level, c.threshold) ==> crate::float_bits::at_most(
                over,
                g(Calc::Sub, c.threshold, c.threshold),
            ));
        }
        let down = g(Calc::Sub, 0, fall);
        lemma_below_zero(fall, g);
    }
    let under = g(Calc::Sub, c.gate, level);
    if crate::float_bits::at_most(TWO_BITS, params.expander_ratio) && crate::dsp::numbers::reaches(
        under,
        40,
    ) {
        assert(crate::dsp::numbers::within(under, 21));
        let more = g(Calc::Sub, c.expander_ratio, ONE_BITS);
        let least = g(Calc::Sub, TWO_BITS, ONE_BITS);
        assert(crate::float_bits::at_most(least, more));
        assert(crate::float_bits::less(0, least));
        lemma_two_less_one(g);
        assert(crate::dsp::numbers::reaches(more, 0));
        assert(crate::dsp::numbers::within(c.expander_ratio, 20));
        assert(crate::dsp::numbers::within(ONE_BITS, 20));
        assert(crate::dsp::numbers::within(more, 21));
        let down = g(Calc::Mul, crate::float_bits::negated(under), more);
        let up = g(Calc::Mul, under, more);
        assert(crate::dsp::numbers::reaches(up, 40));
        assert(crate::float_bits::same(down, crate::float_bits::negated(up)));
        assert(crate::float_bits::less(level, c.gate)) by {
            assert(crate::float_bits::at_most(c.gate, level) ==> crate::float_bits::at_most(
                under,
                g(Calc::Sub, level, level),
            ));
        }
    }
}

proof fn lemma_below_zero(v: u32, g: spec_fn(Calc, u32, u32) -> u32)
    requires
        crate::dsp::numbers::ordinary(g),
        crate::dsp::numbers::positive(v),
    ensures
        crate::float_bits::less(g(Calc::Sub, 0, v), 0),
{
    reveal(crate::dsp::numbers::ordinary);
}

proof fn lemma_two_less_one(g: spec_fn(Calc, u32, u32) -> u32)
    requires
        crate::dsp::numbers::ordinary(g),
    ensures
        crate::dsp::numbers::reaches(g(Calc::Sub, TWO_BITS, ONE_BITS), 0),
{
    reveal(crate::dsp::numbers::ordinary);
}

/// Times are kept the longer the longer they are: a level that is followed over a longer time moves
/// more slowly.
proof fn lemma_slower(a: u32, b: u32, rate: u32, g: spec_fn(Calc, u32, u32) -> u32)
    requires
        crate::dsp::numbers::ordinary(g),
        crate::dsp::numbers::reaches(a, 20),
        crate::dsp::numbers::within(b, 20),
        crate::float_bits::at_most(a, b),
        crate::dsp::numbers::reaches(rate, 0),
        crate::dsp::numbers::within(rate, 20),
    ensures
        crate::float_bits::at_most(
            crate::dsp::tuning::speed_over(b, rate, g),
            crate::dsp::tuning::speed_over(a, rate, g),
        ),
{
    reveal(crate::dsp::numbers::ordinary);
    assert(crate::dsp::numbers::positive(rate));
    let (x, y) = (g(Calc::Mul, a, rate), g(Calc::Mul, b, rate));
    assert(crate::float_bits::at_most(x, y));
    assert(crate::dsp::numbers::within(a, 20) && crate::dsp::numbers::within(x, 40));
    assert(crate::dsp::numbers::reaches(x, 20));
    assert(crate::dsp::numbers::positive(x));
    let back = crate::dsp::tuning::MINUS_ONE_BITS;
    assert(crate::float_bits::less(back, 0) && crate::float_bits::finite(back));
    let (p, q) = (g(Calc::Div, back, x), g(Calc::Div, back, y));
    assert(crate::float_bits::at_most(p, q));
    let (k, l) = (g(Calc::Exp, p, 0), g(Calc::Exp, q, 0));
    assert(crate::float_bits::at_most(k, l));
    assert(crate::float_bits::at_most(
        g(Calc::Sub, ONE_BITS, l),
        g(Calc::Sub, ONE_BITS, k),
    ));
}

/// The bits of a hundred thousand.
pub const LONGEST_MS: u32 = 0x47c3_5000;

proof fn lemma_seconds(a: u32, b: u32, g: spec_fn(Calc, u32, u32) -> u32)
    requires
        crate::dsp::numbers::ordinary(g),
        crate::float_bits::at_most(a, b),
        crate::float_bits::at_most(b, LONGEST_MS),
        crate::float_bits::at_most(0, a),
    ensures
        ({
            let milli = crate::dsp::tuning::MILLI_BITS;
            let x = crate::dsp::arith::larger(g(Calc::Mul, a, milli), milli);
            let y = crate::dsp::arith::larger(g(Calc::Mul, b, milli), milli);
            &&& crate::float_bits::at_most(x, y)
            &&& crate::dsp::numbers::reaches(x, 20)
            &&& crate::dsp::numbers::within(y, 20)
        }),
{
    reveal(crate::dsp::numbers::ordinary);
    let milli = crate::dsp::tuning::MILLI_BITS;
    assert(crate::dsp::numbers::positive(milli));
    let (x, y) = (g(Calc::Mul, a, milli), g(Calc::Mul, b, milli));
    assert(crate::float_bits::at_most(x, y));
    assert(crate::dsp::numbers::within(b, 17) && crate::dsp::numbers::within(milli, 0));
    assert(crate::dsp::numbers::within(y, 17));
}

/// The attack and the release of a compander are those that are asked for: a longer attack makes its
/// bands follow rising levels more slowly, and a longer release falling ones.
pub proof fn law_longer_times_are_slower<F: Fn(Calc, u32, u32) -> u32>(
    before: (CompanderStage, CompanderStage),
    params: (CompanderState, CompanderState),
    f: F,
    after: (CompanderStage, CompanderStage),
    i: int,
    g: spec_fn(Calc, u32, u32) -> u32,
)
    requires
        crate::dsp::arith::computes(f, g),
        crate::dsp::numbers::ordinary(g),
        crate::dsp::stages::compander_set(before.0, params.0, f, after.0),
        crate::dsp::stages::compander_set(before.1, params.1, f, after.1),
        taken_anew(before.0, params.0),
        taken_anew(before.1, params.1),
        before.0.rate == before.1.rate,
        crate::dsp::numbers::reaches(before.0.rate, 0),
        crate::dsp::numbers::within(before.0.rate, 20),
        0 <= i < before.0.stage@.bands.len(),
        0 <= i < before.1.stage@.bands.len(),
        crate::float_bits::at_most(0, params.0.attack_ms),
        crate::float_bits::at_most(0, params.0.release_ms),
        crate::float_bits::at_most(params.1.attack_ms, LONGEST_MS),
        crate::float_bits::at_most(params.1.release_ms, LONGEST_MS),
    ensures
        crate::float_bits::at_most(params.0.attack_ms, params.1.attack_ms)
            ==> crate::float_bits::at_most(
            after.1.stage@.bands[i].attack,
            after.0.stage@.bands[i].attack,
        ),
        crate::float_bits::at_most(params.0.release_ms, params.1.release_ms)
            ==> crate::float_bits::at_most(
            after.1.stage@.bands[i].release,
            after.0.stage@.bands[i].release,
        ),
        after.0.stage@.enabled == params.0.enabled,
        after.0.stage@.bands[i].curve.threshold == params.0.threshold_db,
        after.0.stage@.bands[i].curve.gate == params.0.gate_db,
        crate::float_bits::at_most(ONE_BITS, params.0.ratio)
            ==> after.0.stage@.bands[i].curve.ratio == params.0.ratio,
        crate::float_bits::at_most(ONE_BITS, params.0.expander_ratio)
            ==> after.0.stage@.bands[i].curve.expander_ratio == params.0.expander_ratio,
        crate::float_bits::less(0, params.0.knee_db) ==> after.0.stage@.bands[i].curve.knee
            == params.0.knee_db,
        after.0.stage@.bands[i].level == before.0.stage@.bands[i].level,
        after.0.stage@.bands[i].held == before.0.stage@.bands[i].held,
{
    let rate = before.0.rate;
    let milli = crate::dsp::tuning::MILLI_BITS;
    if crate::float_bits::at_most(params.0.attack_ms, params.1.attack_ms) {
        lemma_seconds(params.0.attack_ms, params.1.attack_ms, g);
        lemma_slower(
            crate::dsp::arith::larger(g(Calc::Mul, params.0.attack_ms, milli), milli),
            crate::dsp::arith::larger(g(Calc::Mul, params.1.attack_ms, milli), milli),
            rate,
            g,
        );
    }
    if crate::float_bits::at_most(params.0.release_ms, params.1.release_ms) {
        lemma_seconds(params.0.release_ms, params.1.release_ms, g);
        lemma_slower(
            crate::dsp::arith::larger(g(Calc::Mul, params.0.release_ms, milli), milli),
            crate::dsp::arith::larger(g(Calc::Mul, params.1.release_ms, milli), milli),
            rate,
            g,
        );
    }
}

/// A band follows rising levels with its attack and falling ones with its release, and what comes out
/// of it is the louder the more makeup it has: what is above zero is larger.
pub proof fn law_a_band_rises_with_its_attack_and_its_makeup(
    b: BandView,
    other: BandView,
    peak: u32,
    l: u32,
    r: u32,
    g: spec_fn(Calc, u32, u32) -> u32,
)
    requires
        crate::dsp::numbers::ordinary(g),
    ensures
        crate::float_bits::less(b.level, crate::dsp::band::level_db(peak, g)) && other == (BandView {
            release: other.release,
            ..b
        }) ==> crate::dsp::band::level_next(b, peak, g) == crate::dsp::band::level_next(
            other,
            peak,
            g,
        ),
        !crate::float_bits::less(b.level, crate::dsp::band::level_db(peak, g)) && other == (
        BandView { attack: other.attack, ..b }) ==> crate::dsp::band::level_next(b, peak, g)
            == crate::dsp::band::level_next(other, peak, g),
        other == (BandView { makeup: other.makeup, ..b }) && crate::float_bits::at_most(
            b.makeup,
            other.makeup,
        ) && crate::dsp::numbers::positive(
            crate::dsp::band::gain_next(b, crate::dsp::band::frame_top(l, r), g).gain,
        ) ==> {
            let held = crate::dsp::delay::held_out(b.held, (l, r));
            let (x, y) = (
                crate::dsp::band::band_out(b, l, r, g),
                crate::dsp::band::band_out(other, l, r, g),
            );
            &&& crate::dsp::numbers::positive(held.0) ==> crate::float_bits::at_most(x.0, y.0)
            &&& crate::dsp::numbers::positive(held.1) ==> crate::float_bits::at_most(x.1, y.1)
        },
        crate::dsp::numbers::zero(crate::dsp::delay::held_out(b.held, (l, r)).0)
            && crate::float_bits::finite(
            crate::dsp::band::applied(
                crate::dsp::band::gain_next(b, crate::dsp::band::frame_top(l, r), g),
                g,
            ),
        ) ==> crate::dsp::numbers::zero(crate::dsp::band::band_out(b, l, r, g).0),
{
    reveal(crate::dsp::numbers::ordinary);
    let top = crate::dsp::band::frame_top(l, r);
    let (n, m) = (crate::dsp::band::gain_next(b, top, g), crate::dsp::band::gain_next(other, top, g));
    let held = crate::dsp::delay::held_out(b.held, (l, r));
    if other == (BandView { makeup: other.makeup, ..b }) && crate::float_bits::at_most(
        b.makeup,
        other.makeup,
    ) && crate::dsp::numbers::positive(n.gain) {
        assert(n.gain == m.gain);
        let (p, q) = (g(Calc::Mul, n.gain, b.makeup), g(Calc::Mul, n.gain, other.makeup));
        assert(crate::float_bits::at_most(p, q));
        assert(crate::dsp::numbers::positive(held.0) ==> crate::float_bits::at_most(
            g(Calc::Mul, held.0, p),
            g(Calc::Mul, held.0, q),
        ));
        assert(crate::dsp::numbers::positive(held.1) ==> crate::float_bits::at_most(
            g(Calc::Mul, held.1, p),
            g(Calc::Mul, held.1, q),
        ));
    }
}

} // verus!
