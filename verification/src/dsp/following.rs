//! How effects follow times, frequencies, angles and levels.

use vstd::prelude::*;
use crate::dsp::arith::{Calc, HALF_BITS};
use crate::dsp::band::BandView;
use crate::dsp::bass::{BassChannel, BassSettings};
use crate::dsp::limiter::Limiter;
use crate::dsp::saturation::DcBlocker;
use crate::dsp::spatializer::Spatializer;
use crate::dsp::stages::{BassStage, EqStage, SurroundStage};
use crate::float_bits::{ONE_BITS, TWO_BITS};
use crate::types::{BassBoostState, EqState};
use crate::wide::Wide;

verus! {

/// A longer time and a higher rate make more samples, and there is always one.
pub proof fn law_times_are_counted_in_samples(
    seconds: u32,
    longer: u32,
    rate: u32,
    higher: u32,
    g: spec_fn(Calc, u32, u32) -> u32,
)
    requires
        crate::dsp::numbers::ordinary(g),
        crate::dsp::numbers::positive(seconds),
        crate::dsp::numbers::positive(longer),
        crate::dsp::numbers::positive(rate),
        crate::dsp::numbers::positive(higher),
        crate::float_bits::at_most(seconds, longer),
        crate::float_bits::at_most(rate, higher),
    ensures
        crate::dsp::tuning::samples_in(seconds, rate, g) <= crate::dsp::tuning::samples_in(
            longer,
            rate,
            g,
        ),
        crate::dsp::tuning::samples_in(seconds, rate, g) <= crate::dsp::tuning::samples_in(
            seconds,
            higher,
            g,
        ),
        crate::dsp::tuning::samples_in(seconds, rate, g) >= 1,
{
    reveal(crate::dsp::numbers::ordinary);
    let (a, b, c) = (
        g(Calc::Mul, seconds, rate),
        g(Calc::Mul, longer, rate),
        g(Calc::Mul, seconds, higher),
    );
    assert(crate::float_bits::at_most(a, b) && crate::float_bits::at_most(a, c));
    let (x, y, z) = (g(Calc::Round, a, 0), g(Calc::Round, b, 0), g(Calc::Round, c, 0));
    assert(crate::float_bits::at_most(x, y) && crate::float_bits::at_most(x, z));
    let (l, m, n) = (
        crate::dsp::arith::larger(x, ONE_BITS),
        crate::dsp::arith::larger(y, ONE_BITS),
        crate::dsp::arith::larger(z, ONE_BITS),
    );
    assert(crate::float_bits::at_most(ONE_BITS, l));
    assert(crate::float_bits::at_most(l, m) && crate::float_bits::at_most(l, n));
    assert(g(Calc::Count, ONE_BITS, 0) <= g(Calc::Count, l, 0));
    assert(g(Calc::Count, l, 0) <= g(Calc::Count, m, 0));
    assert(g(Calc::Count, l, 0) <= g(Calc::Count, n, 0));
}

/// A filter for a higher frequency keeps less of what it holds, and one at a higher rate keeps more; so
/// does a follower over a longer time, and it is then slower.
pub proof fn law_filters_keep_what_they_are_asked(
    hz: u32,
    above: u32,
    seconds: u32,
    longer: u32,
    rate: u32,
    higher: u32,
    g: spec_fn(Calc, u32, u32) -> u32,
)
    requires
        crate::dsp::numbers::ordinary(g),
        crate::dsp::numbers::within(hz, 20),
        crate::dsp::numbers::reaches(hz, 20),
        crate::dsp::numbers::within(above, 20),
        crate::dsp::numbers::within(seconds, 20),
        crate::dsp::numbers::reaches(seconds, 20),
        crate::dsp::numbers::within(longer, 20),
        crate::dsp::numbers::within(rate, 20),
        crate::dsp::numbers::reaches(rate, 0),
        crate::dsp::numbers::within(higher, 20),
        crate::float_bits::at_most(hz, above),
        crate::float_bits::at_most(seconds, longer),
        crate::float_bits::at_most(rate, higher),
    ensures
        crate::float_bits::at_most(
            crate::dsp::tuning::kept_at(above, rate, g),
            crate::dsp::tuning::kept_at(hz, rate, g),
        ),
        crate::float_bits::at_most(
            crate::dsp::tuning::kept_at(hz, rate, g),
            crate::dsp::tuning::kept_at(hz, higher, g),
        ),
        crate::float_bits::at_most(
            crate::dsp::tuning::kept_over(seconds, rate, g),
            crate::dsp::tuning::kept_over(longer, rate, g),
        ),
        crate::float_bits::at_most(
            crate::dsp::tuning::kept_over(seconds, rate, g),
            crate::dsp::tuning::kept_over(seconds, higher, g),
        ),
        crate::float_bits::at_most(
            crate::dsp::tuning::speed_over(longer, rate, g),
            crate::dsp::tuning::speed_over(seconds, rate, g),
        ),
{
    lemma_kept_at(hz, above, rate, higher, g);
    lemma_kept_over(seconds, longer, rate, higher, g);
    reveal(crate::dsp::numbers::ordinary);
}

proof fn lemma_kept_at(
    hz: u32,
    above: u32,
    rate: u32,
    higher: u32,
    g: spec_fn(Calc, u32, u32) -> u32,
)
    requires
        crate::dsp::numbers::ordinary(g),
        crate::dsp::numbers::within(hz, 20),
        crate::dsp::numbers::reaches(hz, 20),
        crate::dsp::numbers::within(above, 20),
        crate::dsp::numbers::within(rate, 20),
        crate::dsp::numbers::reaches(rate, 0),
        crate::dsp::numbers::within(higher, 20),
        crate::float_bits::at_most(hz, above),
        crate::float_bits::at_most(rate, higher),
    ensures
        crate::float_bits::at_most(
            crate::dsp::tuning::kept_at(above, rate, g),
            crate::dsp::tuning::kept_at(hz, rate, g),
        ),
        crate::float_bits::at_most(
            crate::dsp::tuning::kept_at(hz, rate, g),
            crate::dsp::tuning::kept_at(hz, higher, g),
        ),
{
    reveal(crate::dsp::numbers::ordinary);
    let back = crate::dsp::tuning::BACK_TURN_BITS;
    let turn = crate::dsp::tuning::TURN_BITS;
    assert(back == crate::float_bits::negated(turn));
    assert(crate::dsp::numbers::within(turn, 3) && crate::dsp::numbers::reaches(turn, 0));
    assert(crate::dsp::numbers::positive(turn));
    let (p, q) = (g(Calc::Mul, turn, hz), g(Calc::Mul, turn, above));
    assert(crate::float_bits::at_most(p, q));
    assert(crate::dsp::numbers::reaches(p, 20));
    assert(crate::dsp::numbers::within(p, 23) && crate::dsp::numbers::within(q, 23));
    let (m, n) = (g(Calc::Mul, back, hz), g(Calc::Mul, back, above));
    assert(crate::float_bits::same(m, crate::float_bits::negated(p)));
    assert(crate::float_bits::same(n, crate::float_bits::negated(q)));
    assert(crate::float_bits::at_most(n, m) && crate::float_bits::less(m, 0));
    let (a, b, c) = (g(Calc::Div, n, rate), g(Calc::Div, m, rate), g(Calc::Div, m, higher));
    assert(crate::float_bits::at_most(a, b) && crate::float_bits::at_most(b, c));
}

proof fn lemma_kept_over(
    seconds: u32,
    longer: u32,
    rate: u32,
    higher: u32,
    g: spec_fn(Calc, u32, u32) -> u32,
)
    requires
        crate::dsp::numbers::ordinary(g),
        crate::dsp::numbers::within(seconds, 20),
        crate::dsp::numbers::reaches(seconds, 20),
        crate::dsp::numbers::within(longer, 20),
        crate::dsp::numbers::within(rate, 20),
        crate::dsp::numbers::reaches(rate, 0),
        crate::dsp::numbers::within(higher, 20),
        crate::float_bits::at_most(seconds, longer),
        crate::float_bits::at_most(rate, higher),
    ensures
        crate::float_bits::at_most(
            crate::dsp::tuning::kept_over(seconds, rate, g),
            crate::dsp::tuning::kept_over(longer, rate, g),
        ),
        crate::float_bits::at_most(
            crate::dsp::tuning::kept_over(seconds, rate, g),
            crate::dsp::tuning::kept_over(seconds, higher, g),
        ),
{
    reveal(crate::dsp::numbers::ordinary);
    let (a, b, c) = (
        g(Calc::Mul, seconds, rate),
        g(Calc::Mul, longer, rate),
        g(Calc::Mul, seconds, higher),
    );
    assert(crate::float_bits::at_most(a, b) && crate::float_bits::at_most(a, c));
    assert(crate::dsp::numbers::reaches(a, 20) && crate::dsp::numbers::within(a, 40));
    assert(crate::dsp::numbers::positive(a));
    let minus = crate::dsp::tuning::MINUS_ONE_BITS;
    let (x, y, z) = (g(Calc::Div, minus, a), g(Calc::Div, minus, b), g(Calc::Div, minus, c));
    assert(crate::float_bits::at_most(x, y) && crate::float_bits::at_most(x, z));
}

/// The bass is watched below a lower frequency than the one up to which harmonics are made, and its
/// level is followed faster up than down.
pub proof fn law_the_bass_is_watched(
    state: BassBoostState,
    rate: u32,
    g: spec_fn(Calc, u32, u32) -> u32,
)
    requires
        crate::dsp::numbers::ordinary(g),
        crate::dsp::numbers::within(rate, 20),
        crate::dsp::numbers::reaches(rate, 0),
    ensures
        ({
            let s = crate::dsp::tuning::bass_settings_of(state, rate, g);
            &&& crate::float_bits::at_most(s.low_keep, s.watch_keep)
            &&& crate::float_bits::at_most(s.attack_keep, s.release_keep)
            &&& s.enabled == state.enabled
            &&& s.harmonics == state.harmonics
            &&& s.adaptive == state.adaptive
        }),
{
    reveal(crate::dsp::numbers::ordinary);
    lemma_kept_at(
        crate::dsp::tuning::WATCH_HZ,
        crate::dsp::tuning::HARMONIC_HZ,
        rate,
        rate,
        g,
    );
    let milli = crate::dsp::tuning::MILLI_BITS;
    let (fast, slow) = (
        crate::dsp::tuning::WATCH_ATTACK_MS,
        crate::dsp::tuning::WATCH_RELEASE_MS,
    );
    assert(crate::dsp::numbers::reaches(fast, 0) && crate::dsp::numbers::within(fast, 10));
    assert(crate::dsp::numbers::within(slow, 10));
    assert(crate::dsp::numbers::reaches(milli, 10) && crate::dsp::numbers::within(milli, 0));
    assert(crate::dsp::numbers::positive(milli));
    lemma_kept_over(g(Calc::Mul, fast, milli), g(Calc::Mul, slow, milli), rate, rate, g);
}

/// While the bass gets louder only the attack counts, and otherwise only the release.
pub proof fn law_the_bass_rises_with_its_attack(
    s: BassSettings,
    t: BassSettings,
    c: BassChannel,
    x: u32,
    g: spec_fn(Calc, u32, u32) -> u32,
)
    requires
        s.adaptive,
        t.adaptive,
        s.watch_keep == t.watch_keep,
    ensures
        ({
            let (a, b) = (
                crate::dsp::bass::bass_next(s, c, x, g),
                crate::dsp::bass::bass_next(t, c, x, g),
            );
            let top = crate::float_bits::magnitude(a.watched) as u32;
            &&& a.watched == b.watched
            &&& crate::float_bits::less(c.level, top) && s.attack_keep == t.attack_keep ==> a.level
                == b.level
            &&& !crate::float_bits::less(c.level, top) && s.release_keep == t.release_keep
                ==> a.level == b.level
        }),
{
}

/// Louder bass is boosted by a smaller share, which lies between a quarter and all.
pub proof fn law_the_share_falls_with_the_level(
    level: u32,
    louder: u32,
    g: spec_fn(Calc, u32, u32) -> u32,
)
    requires
        crate::dsp::numbers::ordinary(g),
        crate::float_bits::finite(level),
        crate::float_bits::finite(louder),
        crate::float_bits::at_most(level, louder),
        crate::dsp::bands::share_of(level) == crate::dsp::bands::share_of(louder),
    ensures
        crate::float_bits::at_most(
            crate::dsp::bass::share(louder, g),
            crate::dsp::bass::share(level, g),
        ),
        crate::float_bits::at_most(crate::dsp::bass::share(level, g), ONE_BITS),
{
    reveal(crate::dsp::numbers::ordinary);
    let (quiet, loud) = (crate::dsp::bands::QUIET, crate::dsp::bands::LOUD);
    let least = crate::dsp::bass::LEAST_SHARE;
    let span = g(Calc::Sub, loud, quiet);
    let room = g(Calc::Sub, ONE_BITS, least);
    assert(crate::dsp::numbers::within(loud, 1) && crate::dsp::numbers::within(quiet, 1));
    assert(crate::dsp::numbers::within(span, 2) && crate::dsp::numbers::positive(span));
    assert(crate::dsp::numbers::within(ONE_BITS, 1) && crate::dsp::numbers::within(least, 1));
    assert(crate::dsp::numbers::within(room, 2) && crate::dsp::numbers::positive(room));
    if crate::dsp::bands::share_of(level) is Partial {
        let (a, b) = (g(Calc::Sub, level, quiet), g(Calc::Sub, louder, quiet));
        assert(crate::float_bits::at_most(a, b));
        let none = g(Calc::Sub, quiet, quiet);
        assert(crate::dsp::numbers::zero(none));
        assert(crate::float_bits::at_most(none, a));
        let (s, t) = (g(Calc::Div, a, span), g(Calc::Div, b, span));
        assert(crate::float_bits::at_most(s, t));
        let nought = g(Calc::Div, none, span);
        assert(crate::dsp::numbers::zero(nought));
        assert(crate::float_bits::at_most(nought, s));
        let (p, q) = (g(Calc::Mul, s, room), g(Calc::Mul, t, room));
        assert(crate::float_bits::at_most(p, q));
        let zero = g(Calc::Mul, nought, room);
        assert(crate::dsp::numbers::zero(zero));
        assert(crate::float_bits::at_most(zero, p));
        assert(crate::float_bits::at_most(g(Calc::Sub, ONE_BITS, q), g(Calc::Sub, ONE_BITS, p)));
        assert(crate::float_bits::at_most(
            g(Calc::Sub, ONE_BITS, p),
            g(Calc::Sub, ONE_BITS, zero),
        ));
    }
}

/// The gain of a band moves towards the one that its curve wants, and its factor moves with it.
pub proof fn law_a_band_moves_towards_its_curve(
    b: BandView,
    peak: u32,
    g: spec_fn(Calc, u32, u32) -> u32,
)
    requires
        crate::dsp::numbers::ordinary(g),
        crate::dsp::numbers::within(b.gain_db, 10),
        crate::dsp::numbers::positive(b.declick),
        crate::dsp::numbers::within(b.declick, 0),
        crate::dsp::numbers::within(
            crate::dsp::band::curve_gain(b.curve, crate::dsp::band::level_next(b, peak, g), g),
            10,
        ),
    ensures
        ({
            let wanted = crate::dsp::band::curve_gain(
                b.curve,
                crate::dsp::band::level_next(b, peak, g),
                g,
            );
            let after = crate::dsp::band::gain_next(b, peak, g);
            &&& crate::float_bits::at_most(b.gain_db, wanted) ==> crate::float_bits::at_most(
                b.gain_db,
                after.gain_db,
            )
            &&& crate::float_bits::at_most(wanted, b.gain_db) ==> crate::float_bits::at_most(
                after.gain_db,
                b.gain_db,
            )
            &&& b.left == 1 ==> after.gain == crate::dsp::band::db_factor(after.gain_db, g)
            &&& b.left != 1 && crate::dsp::numbers::positive(b.gain) && crate::float_bits::at_most(
                b.gain_db,
                wanted,
            ) ==> crate::float_bits::at_most(b.gain, after.gain)
        }),
{
    reveal(crate::dsp::numbers::ordinary);
    let wanted = crate::dsp::band::curve_gain(b.curve, crate::dsp::band::level_next(b, peak, g), g);
    let d = g(Calc::Sub, wanted, b.gain_db);
    let none = g(Calc::Sub, b.gain_db, b.gain_db);
    assert(crate::dsp::numbers::zero(none));
    let step = g(Calc::Mul, b.declick, d);
    assert(crate::dsp::numbers::within(d, 11) && crate::dsp::numbers::within(step, 11));
    let still = g(Calc::Mul, b.declick, 0);
    assert(crate::dsp::numbers::zero(still));
    assert(crate::float_bits::same(g(Calc::Add, b.gain_db, still), b.gain_db));
    if crate::float_bits::at_most(b.gain_db, wanted) {
        assert(crate::float_bits::at_most(none, d));
        assert(crate::float_bits::at_most(still, step));
        assert(crate::float_bits::at_most(
            g(Calc::Add, b.gain_db, still),
            g(Calc::Add, b.gain_db, step),
        ));
        if crate::dsp::numbers::positive(b.gain) {
            lemma_factor_rises(b.gain, step, g);
        }
    }
    if crate::float_bits::at_most(wanted, b.gain_db) {
        assert(crate::float_bits::at_most(d, none));
        assert(crate::float_bits::at_most(step, still));
        assert(crate::float_bits::at_most(
            g(Calc::Add, b.gain_db, step),
            g(Calc::Add, b.gain_db, still),
        ));
    }
}

proof fn lemma_factor_rises(gain: u32, step: u32, g: spec_fn(Calc, u32, u32) -> u32)
    requires
        crate::dsp::numbers::ordinary(g),
        crate::dsp::numbers::positive(gain),
        crate::float_bits::at_most(0, step),
        crate::dsp::numbers::within(step, 11),
    ensures
        crate::float_bits::at_most(gain, crate::dsp::band::followed(gain, step, g)),
{
    reveal(crate::dsp::numbers::ordinary);
    let per = crate::dsp::band::NEPERS_PER_DB;
    assert(crate::dsp::numbers::positive(per) && crate::dsp::numbers::positive(HALF_BITS));
    assert(crate::dsp::numbers::within(per, 0) && crate::dsp::numbers::within(HALF_BITS, 0));
    assert(crate::dsp::numbers::within(ONE_BITS, 11));
    let x = g(Calc::Mul, per, step);
    let x0 = g(Calc::Mul, per, 0);
    assert(crate::dsp::numbers::zero(x0) && crate::float_bits::at_most(x0, x));
    let h = g(Calc::Mul, HALF_BITS, x);
    let h0 = g(Calc::Mul, HALF_BITS, 0);
    assert(crate::dsp::numbers::zero(h0) && crate::float_bits::at_most(h0, h));
    let inner = g(Calc::Add, ONE_BITS, h);
    assert(crate::dsp::numbers::within(x, 11) && crate::dsp::numbers::within(h, 11));
    assert(crate::dsp::numbers::within(inner, 12));
    assert(crate::float_bits::at_most(g(Calc::Add, ONE_BITS, h0), inner));
    assert(crate::float_bits::at_most(ONE_BITS, inner));
    let m = g(Calc::Mul, x, inner);
    lemma_product(x, inner, g);
    let n = g(Calc::Add, ONE_BITS, m);
    assert(crate::float_bits::at_most(g(Calc::Add, ONE_BITS, 0), n));
    assert(crate::float_bits::at_most(ONE_BITS, n));
    assert(crate::float_bits::at_most(g(Calc::Mul, gain, ONE_BITS), g(Calc::Mul, gain, n)));
}

proof fn lemma_product(x: u32, y: u32, g: spec_fn(Calc, u32, u32) -> u32)
    requires
        crate::dsp::numbers::ordinary(g),
        crate::float_bits::at_most(0, x),
        crate::float_bits::at_most(ONE_BITS, y),
        crate::float_bits::finite(y),
    ensures
        crate::float_bits::at_most(0, g(Calc::Mul, x, y)),
{
    reveal(crate::dsp::numbers::ordinary);
    assert(crate::dsp::numbers::positive(y));
    assert(crate::float_bits::at_most(g(Calc::Mul, 0, y), g(Calc::Mul, x, y)));
}

/// The level of a frame is that of its louder channel, whichever it is.
pub proof fn law_the_louder_channel_sets_the_level(l: u32, r: u32)
    requires
        crate::float_bits::finite(l),
        crate::float_bits::finite(r),
    ensures
        crate::float_bits::magnitude(l) <= crate::dsp::band::frame_top(l, r),
        crate::float_bits::magnitude(r) <= crate::dsp::band::frame_top(l, r),
        crate::dsp::band::frame_top(l, r) == crate::float_bits::magnitude(l)
            || crate::dsp::band::frame_top(l, r) == crate::float_bits::magnitude(r),
{
}

/// The level of a power of two is its exponent times 6.02 dB, and a value between two powers has at
/// least the level of the lower one. What is nearly silent has the least level of all.
pub proof fn law_levels_start_at_powers_of_two(v: u32, g: spec_fn(Calc, u32, u32) -> u32)
    requires
        crate::dsp::numbers::ordinary(g),
        crate::dsp::numbers::positive(v),
        crate::dsp::numbers::within(
            g(Calc::Power, (crate::float_bits::exponent(v) + 127) as u32, 0),
            10,
        ),
    ensures
        ({
            let octaves = g(Calc::Power, (crate::float_bits::exponent(v) + 127) as u32, 0);
            let base = g(Calc::Mul, octaves, crate::dsp::band::DB_PER_OCTAVE);
            &&& crate::float_bits::less(v, crate::dsp::band::SILENCE)
                ==> crate::dsp::band::level_db(v, g) == crate::dsp::band::SILENCE_DB
            &&& !crate::float_bits::less(v, crate::dsp::band::SILENCE) && v % 0x80_0000 == 0
                ==> crate::float_bits::same(crate::dsp::band::level_db(v, g), base)
            &&& !crate::float_bits::less(v, crate::dsp::band::SILENCE)
                ==> crate::float_bits::at_most(base, crate::dsp::band::level_db(v, g))
        }),
{
    reveal(crate::dsp::numbers::ordinary);
    let octaves = g(Calc::Power, (crate::float_bits::exponent(v) + 127) as u32, 0);
    let m = crate::float_bits::mantissa(v);
    assert(ONE_BITS <= m < TWO_BITS);
    assert(crate::dsp::numbers::within(m, 1) && crate::dsp::numbers::within(ONE_BITS, 1));
    let (a, b) = (g(Calc::Sub, m, ONE_BITS), g(Calc::Add, m, ONE_BITS));
    let none = g(Calc::Sub, ONE_BITS, ONE_BITS);
    assert(crate::dsp::numbers::zero(none) && crate::float_bits::at_most(none, a));
    assert(crate::float_bits::at_most(g(Calc::Add, m, 0), b));
    assert(crate::dsp::numbers::within(a, 2) && crate::dsp::numbers::within(b, 2));
    assert(crate::dsp::numbers::positive(b) && crate::dsp::numbers::reaches(b, 0));
    let t = g(Calc::Div, a, b);
    assert(crate::float_bits::at_most(g(Calc::Div, none, b), t));
    assert(crate::float_bits::at_most(0, t) && crate::dsp::numbers::within(t, 2));
    let q = g(Calc::Mul, t, t);
    lemma_not_below(t, t, g);
    assert(crate::dsp::numbers::within(q, 4));
    let (fifth, third, seventh) = (
        crate::dsp::band::FIFTH,
        crate::dsp::band::THIRD,
        crate::dsp::band::SEVENTH,
    );
    assert(crate::dsp::numbers::within(fifth, 4) && crate::dsp::numbers::within(seventh, 0));
    assert(crate::dsp::numbers::within(third, 9));
    lemma_not_below(q, seventh, g);
    let inner = g(Calc::Add, fifth, g(Calc::Mul, q, seventh));
    lemma_not_less(fifth, g(Calc::Mul, q, seventh), g);
    assert(crate::dsp::numbers::within(inner, 5));
    lemma_not_below(q, inner, g);
    let middle = g(Calc::Add, third, g(Calc::Mul, q, inner));
    lemma_not_less(third, g(Calc::Mul, q, inner), g);
    assert(crate::dsp::numbers::within(middle, 10));
    lemma_not_below(q, middle, g);
    let last = g(Calc::Add, ONE_BITS, g(Calc::Mul, q, middle));
    lemma_not_less(ONE_BITS, g(Calc::Mul, q, middle), g);
    assert(crate::dsp::numbers::within(ONE_BITS, 14));
    assert(crate::dsp::numbers::within(last, 15));
    let series = g(Calc::Mul, t, last);
    lemma_not_below(t, last, g);
    assert(crate::dsp::numbers::within(series, 17));
    let scale = crate::dsp::band::TWO_OVER_LN_TWO;
    assert(crate::dsp::numbers::within(scale, 2));
    let more = g(Calc::Mul, series, scale);
    lemma_not_below(series, scale, g);
    let sum = g(Calc::Add, octaves, more);
    assert(crate::float_bits::at_most(g(Calc::Add, octaves, 0), sum));
    assert(crate::float_bits::at_most(octaves, sum));
    let per = crate::dsp::band::DB_PER_OCTAVE;
    assert(crate::dsp::numbers::positive(per));
    assert(crate::float_bits::at_most(g(Calc::Mul, octaves, per), g(Calc::Mul, sum, per)));
    if v % 0x80_0000 == 0 {
        assert(m == ONE_BITS);
        assert(crate::dsp::numbers::zero(t));
        assert(crate::dsp::numbers::zero(series));
        assert(crate::dsp::numbers::zero(more));
        assert(crate::float_bits::at_most(g(Calc::Mul, sum, per), g(Calc::Mul, octaves, per)));
    }
}

proof fn lemma_not_below(x: u32, y: u32, g: spec_fn(Calc, u32, u32) -> u32)
    requires
        crate::dsp::numbers::ordinary(g),
        crate::float_bits::at_most(0, x),
        crate::float_bits::at_most(0, y),
        crate::float_bits::finite(x),
        crate::float_bits::finite(y),
    ensures
        crate::float_bits::at_most(0, g(Calc::Mul, x, y)),
{
    reveal(crate::dsp::numbers::ordinary);
    if crate::dsp::numbers::positive(y) {
        assert(crate::float_bits::at_most(g(Calc::Mul, 0, y), g(Calc::Mul, x, y)));
        assert(crate::dsp::numbers::zero(g(Calc::Mul, 0, y)));
    } else {
        assert(crate::dsp::numbers::zero(g(Calc::Mul, x, y)));
    }
}

proof fn lemma_not_less(x: u32, y: u32, g: spec_fn(Calc, u32, u32) -> u32)
    requires
        crate::dsp::numbers::ordinary(g),
        crate::float_bits::finite(x),
        crate::float_bits::at_most(0, x),
        crate::float_bits::at_most(0, y),
    ensures
        crate::float_bits::at_most(0, g(Calc::Add, x, y)),
        crate::float_bits::at_most(x, g(Calc::Add, x, y)),
{
    reveal(crate::dsp::numbers::ordinary);
    assert(crate::float_bits::at_most(g(Calc::Add, x, 0), g(Calc::Add, x, y)));
}

/// The bent signal rises where the signal rises, and silence stays silence.
pub proof fn law_bending_keeps_the_order(
    x: u32,
    y: u32,
    drive: u32,
    g: spec_fn(Calc, u32, u32) -> u32,
)
    requires
        crate::dsp::numbers::ordinary(g),
        crate::dsp::numbers::rises(Calc::Tanh, 0, 0, g),
        forall|a: u32|
            !crate::float_bits::undefined(a) ==> crate::dsp::numbers::within(
                #[trigger] g(Calc::Tanh, a, 0),
                0,
            ),
        crate::dsp::numbers::positive(drive),
        crate::dsp::numbers::within(drive, 10),
        crate::dsp::numbers::within(x, 20),
        crate::dsp::numbers::within(y, 20),
        crate::float_bits::at_most(x, y),
    ensures
        crate::float_bits::at_most(
            crate::dsp::saturation::bent(x, drive, g),
            crate::dsp::saturation::bent(y, drive, g),
        ),
        crate::dsp::numbers::zero(x) ==> crate::dsp::numbers::zero(
            crate::dsp::saturation::bent(x, drive, g),
        ),
{
    reveal(crate::dsp::numbers::ordinary);
    let bias = crate::dsp::saturation::BIAS;
    assert(crate::dsp::numbers::within(bias, 20));
    let (a, b) = (g(Calc::Add, x, bias), g(Calc::Add, y, bias));
    assert(crate::float_bits::at_most(a, b));
    assert(crate::dsp::numbers::within(a, 21) && crate::dsp::numbers::within(b, 21));
    let (m, n) = (g(Calc::Mul, drive, a), g(Calc::Mul, drive, b));
    let o = g(Calc::Mul, drive, bias);
    assert(crate::dsp::numbers::within(m, 31) && crate::dsp::numbers::within(o, 30));
    assert(crate::float_bits::at_most(m, n));
    let (s, t, u) = (g(Calc::Tanh, m, 0), g(Calc::Tanh, n, 0), g(Calc::Tanh, o, 0));
    assert(crate::float_bits::at_most(s, t));
    assert(crate::dsp::numbers::within(u, 0));
    if crate::dsp::numbers::zero(x) {
        assert(crate::float_bits::same(a, bias));
        assert(a == bias);
        assert(crate::dsp::numbers::within(s, 0));
    }
}

/// A steady value is taken out: what is left of a sample is the larger the larger it is, and nothing
/// where it is the one before it and nothing was left of that.
pub proof fn law_steady_values_are_taken_out(
    d: DcBlocker,
    x: u32,
    y: u32,
    g: spec_fn(Calc, u32, u32) -> u32,
)
    requires
        crate::dsp::numbers::ordinary(g),
        crate::dsp::numbers::within(d.x, 20),
        crate::dsp::numbers::within(d.y, 20),
        crate::dsp::numbers::within(x, 20),
        crate::float_bits::at_most(x, y),
    ensures
        crate::float_bits::at_most(
            crate::dsp::saturation::dc_free(d, x, g),
            crate::dsp::saturation::dc_free(d, y, g),
        ),
        x == d.x && crate::dsp::numbers::zero(d.y) ==> crate::dsp::numbers::zero(
            crate::dsp::saturation::dc_free(d, x, g),
        ),
{
    reveal(crate::dsp::numbers::ordinary);
    let pole = crate::dsp::saturation::DC_POLE;
    assert(crate::dsp::numbers::within(pole, 0));
    let rest = g(Calc::Mul, pole, d.y);
    assert(crate::dsp::numbers::within(rest, 20));
    let (a, b) = (g(Calc::Sub, x, d.x), g(Calc::Sub, y, d.x));
    assert(crate::float_bits::at_most(a, b));
    assert(crate::float_bits::at_most(g(Calc::Add, a, rest), g(Calc::Add, b, rest)));
    if x == d.x && crate::dsp::numbers::zero(d.y) {
        assert(crate::dsp::numbers::zero(a) && crate::dsp::numbers::zero(rest));
        assert(crate::float_bits::same(g(Calc::Add, a, rest), rest));
    }
}

/// Louder bent sines get less makeup.
pub proof fn law_makeup_evens_out_the_drive(
    drive: u32,
    other: u32,
    g: spec_fn(Calc, u32, u32) -> u32,
)
    requires
        crate::dsp::numbers::ordinary(g),
        forall|a: u32, b: u32|
            #![trigger g(Calc::Sqrt, a, 0), g(Calc::Sqrt, b, 0)]
            crate::float_bits::at_most(0, a) && crate::float_bits::at_most(a, b)
                ==> crate::float_bits::at_most(g(Calc::Sqrt, a, 0), g(Calc::Sqrt, b, 0)),
        crate::dsp::numbers::not_negative(crate::dsp::tuning::square_sum(256, drive, g)),
        crate::float_bits::finite(
            g(
                Calc::Sqrt,
                g(
                    Calc::Div,
                    crate::dsp::tuning::square_sum(256, drive, g),
                    crate::dsp::tuning::CYCLE_BITS,
                ),
                0,
            ),
        ),
        crate::float_bits::at_most(
            crate::dsp::tuning::square_sum(256, drive, g),
            crate::dsp::tuning::square_sum(256, other, g),
        ),
        crate::dsp::numbers::not_negative(g(Calc::Div, HALF_BITS, g(Calc::Sqrt, TWO_BITS, 0))),
    ensures
        crate::float_bits::at_most(
            crate::dsp::tuning::makeup_of(other, g),
            crate::dsp::tuning::makeup_of(drive, g),
        ),
{
    reveal(crate::dsp::numbers::ordinary);
    let cycle = crate::dsp::tuning::CYCLE_BITS;
    assert(crate::dsp::numbers::positive(cycle));
    let (a, b) = (
        g(Calc::Div, crate::dsp::tuning::square_sum(256, drive, g), cycle),
        g(Calc::Div, crate::dsp::tuning::square_sum(256, other, g), cycle),
    );
    assert(crate::float_bits::at_most(g(Calc::Div, 0, cycle), a));
    assert(crate::float_bits::at_most(0, a) && crate::float_bits::at_most(a, b));
    let (x, y) = (g(Calc::Sqrt, a, 0), g(Calc::Sqrt, b, 0));
    assert(crate::float_bits::at_most(x, y));
    let least = crate::dsp::tuning::LEAST_RMS;
    let (m, n) = (crate::dsp::arith::larger(x, least), crate::dsp::arith::larger(y, least));
    assert(crate::float_bits::at_most(m, n));
    assert(crate::float_bits::at_most(least, m));
    assert(crate::dsp::numbers::positive(m));
}

/// A loudspeaker whose sound takes a longer way to the far ear is heard there later, and one further
/// in front is louder and brighter there.
pub proof fn law_speakers_are_heard_by_their_angle(
    degrees: u32,
    other: u32,
    feed: u32,
    rate: u32,
    g: spec_fn(Calc, u32, u32) -> u32,
)
    requires
        crate::dsp::numbers::ordinary(g),
        crate::dsp::numbers::within(rate, 20),
        crate::dsp::numbers::reaches(rate, 0),
        ({
            let turn = crate::dsp::tuning::DEGREE_BITS;
            let (a, b) = (g(Calc::Mul, degrees, turn), g(Calc::Mul, other, turn));
            let (c, d) = (g(Calc::Cos, a, 0), g(Calc::Cos, b, 0));
            &&& crate::float_bits::at_most(
                g(Calc::Add, a, g(Calc::Sin, a, 0)),
                g(Calc::Add, b, g(Calc::Sin, b, 0)),
            )
            &&& crate::dsp::numbers::within(c, 0)
            &&& crate::dsp::numbers::within(d, 0)
            &&& crate::float_bits::at_most(d, c)
            &&& crate::dsp::numbers::not_negative(g(Calc::Add, ONE_BITS, d))
        }),
    ensures
        ({
            let (near, far) = (
                crate::dsp::tuning::speaker_of(degrees, feed, rate, g),
                crate::dsp::tuning::speaker_of(other, feed, rate, g),
            );
            &&& near.delay <= far.delay
            &&& crate::float_bits::at_most(far.far_gain, near.far_gain)
            &&& crate::float_bits::at_most(near.keep, far.keep)
            &&& near.feed_gain == feed
        }),
{
    reveal(crate::dsp::numbers::ordinary);
    let turn = crate::dsp::tuning::DEGREE_BITS;
    let (a, b) = (g(Calc::Mul, degrees, turn), g(Calc::Mul, other, turn));
    let (c, d) = (g(Calc::Cos, a, 0), g(Calc::Cos, b, 0));
    let (v, w) = (g(Calc::Add, a, g(Calc::Sin, a, 0)), g(Calc::Add, b, g(Calc::Sin, b, 0)));
    let (radius, speed) = (crate::dsp::tuning::HEAD_RADIUS, crate::dsp::tuning::SOUND_SPEED);
    assert(crate::dsp::numbers::moderate(radius) && crate::dsp::numbers::moderate(speed));
    let slow = g(Calc::Div, radius, speed);
    assert(crate::dsp::numbers::positive(slow));
    let (x, y) = (g(Calc::Mul, slow, v), g(Calc::Mul, slow, w));
    assert(crate::float_bits::at_most(x, y));
    let (m, n) = (g(Calc::Mul, x, rate), g(Calc::Mul, y, rate));
    assert(crate::dsp::numbers::positive(rate));
    assert(crate::float_bits::at_most(m, n));
    let (p, q) = (g(Calc::Round, m, 0), g(Calc::Round, n, 0));
    assert(crate::float_bits::at_most(p, q));
    let (k, l) = (crate::dsp::arith::larger(p, ONE_BITS), crate::dsp::arith::larger(q, ONE_BITS));
    assert(crate::float_bits::at_most(k, l));
    assert(g(Calc::Count, k, 0) <= g(Calc::Count, l, 0));
    lemma_front(c, d, rate, g);
}

proof fn lemma_front(c: u32, d: u32, rate: u32, g: spec_fn(Calc, u32, u32) -> u32)
    requires
        crate::dsp::numbers::ordinary(g),
        crate::dsp::numbers::within(rate, 20),
        crate::dsp::numbers::reaches(rate, 0),
        crate::dsp::numbers::within(c, 0),
        crate::dsp::numbers::within(d, 0),
        crate::float_bits::at_most(d, c),
        crate::dsp::numbers::not_negative(g(Calc::Add, ONE_BITS, d)),
    ensures
        ({
            let (e, f) = (
                g(Calc::Mul, g(Calc::Add, ONE_BITS, c), HALF_BITS),
                g(Calc::Mul, g(Calc::Add, ONE_BITS, d), HALF_BITS),
            );
            let (more, least) = (crate::dsp::tuning::FAR_MORE, crate::dsp::tuning::FAR_LEAST);
            let (wide, low) = (crate::dsp::tuning::SHADOW_MORE, crate::dsp::tuning::SHADOW_LEAST);
            &&& crate::float_bits::at_most(
                g(Calc::Add, least, g(Calc::Mul, more, f)),
                g(Calc::Add, least, g(Calc::Mul, more, e)),
            )
            &&& crate::float_bits::at_most(
                crate::dsp::tuning::kept_at(g(Calc::Add, low, g(Calc::Mul, wide, e)), rate, g),
                crate::dsp::tuning::kept_at(g(Calc::Add, low, g(Calc::Mul, wide, f)), rate, g),
            )
        }),
{
    reveal(crate::dsp::numbers::ordinary);
    let (s, t) = (g(Calc::Add, ONE_BITS, c), g(Calc::Add, ONE_BITS, d));
    assert(crate::float_bits::at_most(t, s));
    assert(crate::dsp::numbers::within(ONE_BITS, 0));
    assert(crate::dsp::numbers::within(s, 1) && crate::dsp::numbers::within(t, 1));
    let (e, f) = (g(Calc::Mul, s, HALF_BITS), g(Calc::Mul, t, HALF_BITS));
    assert(crate::dsp::numbers::positive(HALF_BITS) && crate::dsp::numbers::within(HALF_BITS, 0));
    assert(crate::float_bits::at_most(f, e));
    lemma_not_below(t, HALF_BITS, g);
    assert(crate::dsp::numbers::within(e, 1) && crate::dsp::numbers::within(f, 1));
    let (more, least) = (crate::dsp::tuning::FAR_MORE, crate::dsp::tuning::FAR_LEAST);
    assert(crate::dsp::numbers::positive(more));
    assert(crate::float_bits::at_most(g(Calc::Mul, more, f), g(Calc::Mul, more, e)));
    let (wide, low) = (crate::dsp::tuning::SHADOW_MORE, crate::dsp::tuning::SHADOW_LEAST);
    assert(crate::dsp::numbers::positive(wide) && crate::dsp::numbers::within(wide, 11));
    assert(crate::dsp::numbers::within(low, 12) && crate::dsp::numbers::reaches(low, 0));
    let (i, j) = (g(Calc::Mul, wide, e), g(Calc::Mul, wide, f));
    assert(crate::float_bits::at_most(j, i));
    assert(crate::dsp::numbers::within(i, 12) && crate::dsp::numbers::within(j, 12));
    lemma_not_below(wide, f, g);
    lemma_not_less(low, j, g);
    let (h, k) = (g(Calc::Add, low, i), g(Calc::Add, low, j));
    assert(crate::float_bits::at_most(k, h));
    assert(crate::dsp::numbers::within(h, 13) && crate::dsp::numbers::within(k, 13));
    assert(crate::dsp::numbers::reaches(k, 20));
    assert(crate::dsp::numbers::within(h, 20) && crate::dsp::numbers::within(k, 20));
    lemma_kept_at(k, h, rate, rate, g);
}

/// The ring has a pair of loudspeakers in front, a quieter one at the sides and the quietest behind.
pub proof fn law_speakers_stand_around(rate: u32, g: spec_fn(Calc, u32, u32) -> u32)
    ensures
        ({
            let s = crate::dsp::tuning::speakers_of(rate, g);
            &&& s.len() == 6
            &&& crate::float_bits::less(s[2].feed_gain, s[0].feed_gain)
            &&& crate::float_bits::less(s[4].feed_gain, s[2].feed_gain)
            &&& exists|front: u32, side: u32, rear: u32|
                crate::float_bits::less(front, side) && crate::float_bits::less(side, rear) && s[0]
                    == #[trigger] crate::dsp::tuning::speaker_of(front, s[0].feed_gain, rate, g)
                    && s[2] == #[trigger] crate::dsp::tuning::speaker_of(
                    side,
                    s[2].feed_gain,
                    rate,
                    g,
                ) && s[4] == #[trigger] crate::dsp::tuning::speaker_of(
                    rear,
                    s[4].feed_gain,
                    rate,
                    g,
                )
        }),
{
    let s = crate::dsp::tuning::speakers_of(rate, g);
    assert(s[0] == crate::dsp::tuning::speaker_of(
        crate::dsp::tuning::FRONT_DEGREES,
        s[0].feed_gain,
        rate,
        g,
    ));
    assert(s[2] == crate::dsp::tuning::speaker_of(
        crate::dsp::tuning::SIDE_DEGREES,
        s[2].feed_gain,
        rate,
        g,
    ));
    assert(s[4] == crate::dsp::tuning::speaker_of(
        crate::dsp::tuning::REAR_DEGREES,
        s[4].feed_gain,
        rate,
        g,
    ));
}

/// At a higher rate a room is longer in samples, and the right side of the small reverb is longer than
/// the left one.
pub proof fn law_rooms_are_longer_at_higher_rates(
    left: bool,
    i: int,
    size: u32,
    rate: u32,
    higher: u32,
    g: spec_fn(Calc, u32, u32) -> u32,
)
    requires
        crate::dsp::numbers::ordinary(g),
        crate::dsp::numbers::positive(rate),
        crate::float_bits::at_most(rate, higher),
        crate::float_bits::finite(higher),
        crate::float_bits::finite(size),
        crate::dsp::numbers::positive(
            g(
                Calc::Add,
                crate::dsp::tuning::SIZE_LEAST,
                g(Calc::Mul, crate::dsp::tuning::SIZE_MORE, crate::dsp::arith::unit(size)),
            ),
        ),
        crate::dsp::numbers::positive(
            g(Calc::Whole, crate::dsp::tuning::room_lengths(left).0[i], 0),
        ),
    ensures
        crate::dsp::tuning::comb_delay(left, i, size, rate, g) <= crate::dsp::tuning::comb_delay(
            left,
            i,
            size,
            higher,
            g,
        ),
        crate::dsp::tuning::reverb_spread(true, rate, g) == 0,
        crate::dsp::tuning::reverb_spread(false, rate, g) >= 1,
{
    reveal(crate::dsp::numbers::ordinary);
    let base = crate::dsp::tuning::REFERENCE_RATE;
    assert(crate::dsp::numbers::positive(base));
    let (a, b) = (g(Calc::Div, rate, base), g(Calc::Div, higher, base));
    assert(crate::float_bits::at_most(a, b));
    let n = g(Calc::Whole, crate::dsp::tuning::room_lengths(left).0[i], 0);
    let (c, d) = (g(Calc::Mul, n, a), g(Calc::Mul, n, b));
    assert(crate::float_bits::at_most(c, d));
    let factor = g(
        Calc::Add,
        crate::dsp::tuning::SIZE_LEAST,
        g(Calc::Mul, crate::dsp::tuning::SIZE_MORE, crate::dsp::arith::unit(size)),
    );
    let (x, y) = (g(Calc::Mul, c, factor), g(Calc::Mul, d, factor));
    assert(crate::float_bits::at_most(x, y));
    assert(g(Calc::Count, x, 0) <= g(Calc::Count, y, 0));
    let spread = g(Calc::Whole, crate::dsp::tuning::reverb_lengths().2, 0);
    assert(crate::float_bits::at_most(g(Calc::Whole, 1, 0), spread));
    let scaled = g(Calc::Div, g(Calc::Mul, spread, rate), base);
    let w = crate::dsp::arith::larger(g(Calc::Round, scaled, 0), ONE_BITS);
    assert(crate::dsp::numbers::positive(rate));
    assert(crate::float_bits::at_most(
        g(Calc::Mul, g(Calc::Whole, 1, 0), rate),
        g(Calc::Mul, spread, rate),
    ));
    assert(!crate::float_bits::undefined(g(Calc::Mul, spread, rate)));
    assert(crate::float_bits::at_most(scaled, scaled));
    assert(crate::float_bits::at_most(g(Calc::Round, scaled, 0), g(Calc::Round, scaled, 0)));
    assert(crate::float_bits::at_most(ONE_BITS, w));
    assert(g(Calc::Count, ONE_BITS, 0) <= g(Calc::Count, w, 0));
}

/// A ring that is made ready keeps its settings: they are what taking them would set.
pub proof fn law_a_ring_keeps_its_settings<F: Fn(Calc, u32, u32) -> u32>(
    before: SurroundStage,
    rate: u32,
    f: F,
    after: SurroundStage,
    other: SurroundStage,
    set: SurroundStage,
    g: spec_fn(Calc, u32, u32) -> u32,
)
    requires
        crate::dsp::arith::computes(f, g),
        crate::dsp::stages::surround_prepared(before, rate, f, after),
        crate::dsp::stages::surround_set(other, before.state, f, set),
    ensures
        after.state == set.state,
        after.stage@.enabled == set.stage@.enabled,
        after.stage@.intensity == set.stage@.intensity,
        after.stage@.subwoofer == set.stage@.subwoofer,
{
}

/// A bass boost that is made ready has the shelf that taking its amount would tune it to.
pub proof fn law_a_bass_boost_keeps_its_amount<
    F: Fn(Calc, u32, u32) -> u32,
    W: Fn(Wide, u64, u64) -> u64,
>(
    before: BassStage,
    rate: u32,
    channels: usize,
    f: F,
    w: W,
    after: BassStage,
    other: BassStage,
    params: BassBoostState,
    set: BassStage,
    i: int,
    j: int,
    g: spec_fn(Calc, u32, u32) -> u32,
    h: spec_fn(Wide, u64, u64) -> u64,
)
    requires
        crate::dsp::arith::computes(f, g),
        crate::wide::computes(w, h),
        crate::dsp::stages::bass_prepared(before, rate, channels, f, w, after),
        crate::dsp::stages::bass_set(other, params, f, w, set),
        params.amount == before.amount,
        other.rate == rate,
        crate::dsp::stages::moved(other.amount, params.amount, g),
        0 <= i < after.stage.channels().len(),
        0 <= j < set.stage.channels().len(),
    ensures
        after.amount == set.amount,
        ({
            let (a, b) = (after.stage.channels()[i].shelf, set.stage.channels()[j].shelf);
            &&& a.b0 == b.b0
            &&& a.b1 == b.b1
            &&& a.b2 == b.b2
            &&& a.a1 == b.a1
            &&& a.a2 == b.a2
            &&& crate::dsp::numbers::zero(a.z1)
            &&& crate::dsp::numbers::zero(a.z2)
        }),
{
}

/// The bands of the compander are cut between their centers: the filter between two bands is a
/// low-pass filter at a frequency between the two centers.
pub proof fn law_bands_are_cut_between_their_centers(
    rate: u32,
    i: int,
    g: spec_fn(Calc, u32, u32) -> u32,
    h: spec_fn(Wide, u64, u64) -> u64,
)
    requires
        0 <= i < 9,
        forall|a: u32, b: u32|
            crate::dsp::numbers::moderate(a) && crate::float_bits::at_most(a, b)
                && crate::dsp::numbers::moderate(b) ==> {
                let mean = g(Calc::Sqrt, #[trigger] g(Calc::Mul, a, b), 0);
                crate::float_bits::at_most(a, mean) && crate::float_bits::at_most(mean, b)
            },
    ensures
        exists|cut: u32, q: u32|
            crate::float_bits::at_most(crate::dsp::tuning::compander_centers()[i], cut)
                && crate::float_bits::at_most(cut, crate::dsp::tuning::compander_centers()[i + 1])
                && crate::dsp::stages::crossover_designs(rate, g, h)[i]
                == #[trigger] crate::dsp::design::lowpass(rate, cut, q, h),
        crate::float_bits::less(
            crate::dsp::tuning::compander_centers()[i],
            crate::dsp::tuning::compander_centers()[i + 1],
        ),
{
    let centers = crate::dsp::tuning::compander_centers();
    let (a, b) = (centers[i], centers[i + 1]);
    assert(crate::dsp::numbers::moderate(a) && crate::dsp::numbers::moderate(b));
    assert(crate::float_bits::less(a, b));
    let cut = g(Calc::Sqrt, g(Calc::Mul, a, b), 0);
    assert(crate::dsp::stages::crossover_designs(rate, g, h)[i] == crate::dsp::design::lowpass(
        rate,
        cut,
        crate::dsp::tuning::BUTTERWORTH_Q,
        h,
    ));
}

/// An equalizer that is made ready keeps its level and its gains: its filters are those that taking the
/// gains would tune it to at that rate, with nothing in memory.
pub proof fn law_an_equalizer_keeps_its_gains<
    F: Fn(Calc, u32, u32) -> u32,
    W: Fn(Wide, u64, u64) -> u64,
>(
    before: EqStage,
    rate: u32,
    channels: usize,
    f: F,
    w: W,
    after: EqStage,
    other: EqStage,
    params: EqState,
    set: EqStage,
    c: int,
    d: int,
    i: int,
    g: spec_fn(Calc, u32, u32) -> u32,
    h: spec_fn(Wide, u64, u64) -> u64,
)
    requires
        crate::dsp::arith::computes(f, g),
        crate::wide::computes(w, h),
        crate::dsp::stages::eq_prepared(before, rate, channels, w, after),
        crate::dsp::stages::eq_set(other, params, f, w, set),
        params.bands == before.bands,
        other.rate == rate,
        !crate::dsp::stages::same_gains(other.bands@, params.bands@),
        0 <= c < after.stage@.bank.len(),
        0 <= d < set.stage@.bank.len(),
        0 <= i < 31,
        i < set.stage@.bank[d].len(),
    ensures
        after.bands == before.bands,
        after.stage@.enabled == before.stage@.enabled,
        after.stage@.gain == before.stage@.gain,
        after.stage@.bank.len() == if channels == 0 {
            1
        } else {
            channels as int
        },
        ({
            let (a, b) = (after.stage@.bank[c][i], set.stage@.bank[d][i]);
            &&& a.b0 == b.b0
            &&& a.b1 == b.b1
            &&& a.b2 == b.b2
            &&& a.a1 == b.a1
            &&& a.a2 == b.a2
            &&& crate::dsp::numbers::zero(a.z1)
            &&& crate::dsp::numbers::zero(a.z2)
        }),
{
    let filters = crate::dsp::design::graphic_designs(rate, params.bands@, h);
    assert(after.stage@.bank[c] == crate::dsp::equalizer::sections_tuned(
        Seq::new(31, |k: int| crate::dsp::equalizer::fresh_section()),
        filters,
    ));
    let bank = other.stage@.bank;
    assert(set.stage@.bank[d] == crate::dsp::equalizer::sections_tuned(bank[d], filters));
}

/// A limiter that is made ready keeps its ceiling and starts with nothing in memory and its gain at
/// one, and at a higher rate it looks further ahead in samples.
pub proof fn law_a_limiter_keeps_its_ceiling<F: Fn(Calc, u32, u32) -> u32>(
    before: Limiter,
    rate: u32,
    higher: u32,
    channels: usize,
    f: F,
    after: Limiter,
    faster: Limiter,
    g: spec_fn(Calc, u32, u32) -> u32,
)
    requires
        crate::dsp::arith::computes(f, g),
        crate::dsp::numbers::ordinary(g),
        crate::dsp::stages::limiter_prepared(before, rate, channels, f, after),
        crate::dsp::stages::limiter_prepared(before, higher, channels, f, faster),
        crate::dsp::numbers::positive(rate),
        crate::dsp::numbers::positive(higher),
        crate::float_bits::at_most(rate, higher),
    ensures
        after@.enabled == before@.enabled,
        after@.ceiling == before@.ceiling,
        after@.frames.len() == 0,
        crate::float_bits::same(after@.gain, ONE_BITS),
        1 <= after@.lookahead <= faster@.lookahead,
{
    let ahead = g(
        Calc::Div,
        crate::dsp::tuning::LIMITER_AHEAD_MS,
        crate::dsp::tuning::THOUSAND_BITS,
    );
    assert(crate::dsp::numbers::positive(ahead)) by {
        reveal(crate::dsp::numbers::ordinary);
        assert(crate::dsp::numbers::moderate(crate::dsp::tuning::LIMITER_AHEAD_MS));
        assert(crate::dsp::numbers::moderate(crate::dsp::tuning::THOUSAND_BITS));
    }
    law_times_are_counted_in_samples(ahead, ahead, rate, higher, g);
}

/// A spatializer that is made ready keeps its settings, and nothing is left of what it heard.
pub proof fn law_a_spatializer_keeps_its_settings<
    F: Fn(Calc, u32, u32) -> u32,
    W: Fn(Wide, u64, u64) -> u64,
>(
    before: Spatializer,
    rate: u32,
    f: F,
    w: W,
    after: Spatializer,
    g: spec_fn(Calc, u32, u32) -> u32,
    h: spec_fn(Wide, u64, u64) -> u64,
)
    requires
        crate::dsp::arith::computes(f, g),
        crate::wide::computes(w, h),
        crate::dsp::numbers::ordinary(g),
        crate::dsp::numbers::within(rate, 20),
        crate::dsp::numbers::reaches(rate, 0),
        crate::dsp::stages::spatializer_prepared(before, rate, f, w, after),
    ensures
        after@.enabled == before@.enabled,
        after@.amount == before@.amount,
        after@.mode == before@.mode,
        after@.delay >= 1,
        crate::dsp::numbers::zero(after@.to_left),
        crate::dsp::numbers::zero(after@.to_right),
        forall|i: int| 0 <= i < after@.left.len() ==> crate::dsp::numbers::zero(
            #[trigger] after@.left[i],
        ),
        forall|i: int| 0 <= i < after@.right.len() ==> crate::dsp::numbers::zero(
            #[trigger] after@.right[i],
        ),
        crate::float_bits::at_most(after@.hrtf_keep, after@.cross_keep),
{
    let late = crate::dsp::tuning::EAR_DELAY_S;
    assert(crate::dsp::numbers::positive(late) && crate::dsp::numbers::positive(rate));
    law_times_are_counted_in_samples(late, late, rate, rate, g);
    lemma_kept_at(crate::dsp::tuning::CROSSFEED_HZ, crate::dsp::tuning::HRTF_HZ, rate, rate, g);
}

} // verus!
