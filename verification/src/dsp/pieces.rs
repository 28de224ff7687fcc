//! What the pieces do that effects are made of: filter sections, combs, diffusers, products of
//! spectra, taps, bands and loudspeakers.

use vstd::prelude::*;
use crate::dsp::arith::Calc;
use crate::dsp::band::BandView;
use crate::dsp::biquad::Biquad;
use crate::dsp::multiband::Crossover;
use crate::dsp::room::{AllpassView, CombView};
use crate::dsp::surround::{SpeakerView, SurroundView};
use crate::float_bits::ONE_BITS;

verus! {

/// What a section remembers of a sample: a larger `b1` makes more of it come out one sample later, and
/// a larger `b2` two samples later; a larger `a1` takes more away of what came out, one sample later,
/// and a larger `a2` two samples later. What was to come out in two samples comes out in one.
pub proof fn law_a_section_plays_on(
    s: Biquad,
    x: u32,
    more: u32,
    g: spec_fn(Calc, u32, u32) -> u32,
)
    requires
        crate::dsp::numbers::ordinary(g),
        crate::dsp::numbers::positive(x),
        crate::dsp::numbers::within(x, 20),
        crate::dsp::numbers::within(more, 20),
        crate::dsp::numbers::within(s.b1, 20),
        crate::dsp::numbers::within(s.b2, 20),
        crate::dsp::numbers::within(s.a1, 20),
        crate::dsp::numbers::within(s.a2, 20),
        crate::dsp::numbers::within(s.z2, 20),
        crate::dsp::numbers::within(crate::dsp::biquad::section_out(s, x, g), 20),
        crate::dsp::numbers::positive(crate::dsp::biquad::section_out(s, x, g)),
    ensures
        ({
            let n = crate::dsp::biquad::section_next(s, x, g);
            let t = crate::dsp::biquad::section_next(Biquad { b1: more, ..s }, x, g);
            crate::float_bits::at_most(s.b1, more) ==> crate::float_bits::at_most(n.z1, t.z1)
                && n.z2 == t.z2
        }),
        ({
            let n = crate::dsp::biquad::section_next(s, x, g);
            let t = crate::dsp::biquad::section_next(Biquad { b2: more, ..s }, x, g);
            crate::float_bits::at_most(s.b2, more) ==> crate::float_bits::at_most(n.z2, t.z2)
                && n.z1 == t.z1
        }),
        ({
            let n = crate::dsp::biquad::section_next(s, x, g);
            let t = crate::dsp::biquad::section_next(Biquad { a1: more, ..s }, x, g);
            crate::float_bits::at_most(s.a1, more) ==> crate::float_bits::at_most(t.z1, n.z1)
                && n.z2 == t.z2
        }),
        ({
            let n = crate::dsp::biquad::section_next(s, x, g);
            let t = crate::dsp::biquad::section_next(Biquad { a2: more, ..s }, x, g);
            crate::float_bits::at_most(s.a2, more) ==> crate::float_bits::at_most(t.z2, n.z2)
                && n.z1 == t.z1
        }),
        ({
            let n = crate::dsp::biquad::section_next(s, x, g);
            let t = crate::dsp::biquad::section_next(Biquad { z2: more, ..s }, x, g);
            crate::float_bits::at_most(s.z2, more) ==> crate::float_bits::at_most(n.z1, t.z1)
                && n.z2 == t.z2
        }),
        crate::float_bits::at_most(s.z1, more) && crate::float_bits::finite(
            g(Calc::Mul, s.b0, x),
        ) ==> crate::float_bits::at_most(
            crate::dsp::biquad::section_out(s, x, g),
            crate::dsp::biquad::section_out(Biquad { z1: more, ..s }, x, g),
        ),
{
    reveal(crate::dsp::numbers::ordinary);
    let y = crate::dsp::biquad::section_out(s, x, g);
    let (p, q) = (g(Calc::Mul, s.b1, x), g(Calc::Mul, more, x));
    let (r, w) = (g(Calc::Mul, s.a1, y), g(Calc::Mul, more, y));
    let (u, v) = (g(Calc::Mul, s.b2, x), g(Calc::Mul, s.a2, y));
    assert(crate::dsp::numbers::within(p, 40) && crate::dsp::numbers::within(q, 40));
    assert(crate::dsp::numbers::within(r, 40) && crate::dsp::numbers::within(w, 40));
    assert(crate::dsp::numbers::within(u, 40) && crate::dsp::numbers::within(v, 40));
    let d = g(Calc::Sub, p, r);
    assert(crate::dsp::numbers::within(d, 41));
    if crate::float_bits::at_most(s.b1, more) {
        let e = g(Calc::Sub, q, r);
        assert(crate::float_bits::at_most(p, q) && crate::float_bits::at_most(d, e));
        assert(crate::float_bits::at_most(g(Calc::Add, d, s.z2), g(Calc::Add, e, s.z2)));
    }
    if crate::float_bits::at_most(s.b2, more) {
        assert(crate::float_bits::at_most(u, q));
        assert(crate::float_bits::at_most(g(Calc::Sub, u, v), g(Calc::Sub, q, v)));
    }
    if crate::float_bits::at_most(s.a1, more) {
        let e = g(Calc::Sub, p, w);
        assert(crate::float_bits::at_most(r, w) && crate::float_bits::at_most(e, d));
        assert(crate::float_bits::at_most(g(Calc::Add, e, s.z2), g(Calc::Add, d, s.z2)));
    }
    if crate::float_bits::at_most(s.a2, more) {
        assert(crate::float_bits::at_most(v, w));
        assert(crate::float_bits::at_most(g(Calc::Sub, u, w), g(Calc::Sub, u, v)));
    }
    if crate::float_bits::at_most(s.z2, more) {
        assert(crate::float_bits::at_most(g(Calc::Add, d, s.z2), g(Calc::Add, d, more)));
    }
}

/// A comb plays what it holds, takes in the sample, and adds what comes back of what it played: the
/// more, the larger its feedback; and the louder what it played and what it remembers.
pub proof fn law_a_comb_repeats(
    c: CombView,
    x: u32,
    more: u32,
    g: spec_fn(Calc, u32, u32) -> u32,
)
    requires
        crate::dsp::numbers::ordinary(g),
        1 <= c.delay <= c.past.len(),
        crate::dsp::numbers::within(x, 20),
        crate::dsp::numbers::within(more, 20),
        crate::dsp::numbers::within(c.store, 20),
        crate::dsp::numbers::within(c.damp, 20),
        crate::dsp::numbers::within(c.rest, 20),
        crate::dsp::numbers::within(c.feedback, 20),
        crate::dsp::numbers::within(crate::dsp::room::comb_out(c), 20),
    ensures
        ({
            let n = crate::dsp::room::comb_next(c, x, g);
            let t = crate::dsp::room::comb_next(CombView { feedback: more, ..c }, x, g);
            let u = crate::dsp::room::comb_next(CombView { rest: more, ..c }, x, g);
            let v = crate::dsp::room::comb_next(CombView { damp: more, ..c }, x, g);
            &&& crate::dsp::numbers::zero(c.store) && crate::dsp::numbers::zero(
                crate::dsp::room::comb_out(c),
            ) ==> crate::float_bits::same(n.past[0], x)
            &&& crate::dsp::numbers::positive(n.store) && crate::float_bits::at_most(
                c.feedback,
                more,
            ) ==> crate::float_bits::at_most(n.past[0], t.past[0]) && n.store == t.store
            &&& crate::dsp::numbers::positive(crate::dsp::room::comb_out(c))
                && crate::float_bits::at_most(c.rest, more) ==> crate::float_bits::at_most(
                n.store,
                u.store,
            )
            &&& crate::dsp::numbers::positive(c.store) && crate::float_bits::at_most(c.damp, more)
                ==> crate::float_bits::at_most(n.store, v.store)
        }),
{
    reveal(crate::dsp::numbers::ordinary);
    let out = crate::dsp::room::comb_out(c);
    let (a, b) = (g(Calc::Mul, out, c.rest), g(Calc::Mul, c.store, c.damp));
    let (d, e) = (g(Calc::Mul, out, more), g(Calc::Mul, c.store, more));
    assert(crate::dsp::numbers::within(a, 40) && crate::dsp::numbers::within(b, 40));
    assert(crate::dsp::numbers::within(d, 40) && crate::dsp::numbers::within(e, 40));
    let sum = g(Calc::Add, a, b);
    assert(crate::dsp::numbers::within(sum, 41));
    let n = crate::dsp::room::comb_next(c, x, g);
    if crate::dsp::numbers::zero(c.store) && crate::dsp::numbers::zero(out) {
        assert(crate::dsp::numbers::zero(a) && crate::dsp::numbers::zero(b));
        assert(crate::float_bits::same(sum, b));
        assert(crate::dsp::numbers::zero(n.store));
        assert(crate::dsp::numbers::zero(g(Calc::Mul, n.store, c.feedback)));
    }
    if crate::dsp::numbers::positive(n.store) && crate::float_bits::at_most(c.feedback, more) {
        let (p, q) = (g(Calc::Mul, n.store, c.feedback), g(Calc::Mul, n.store, more));
        assert(crate::float_bits::at_most(p, q));
        assert(crate::float_bits::at_most(g(Calc::Add, x, p), g(Calc::Add, x, q)));
    }
    if crate::dsp::numbers::positive(out) && crate::float_bits::at_most(c.rest, more) {
        assert(crate::float_bits::at_most(a, d));
        assert(crate::float_bits::at_most(sum, g(Calc::Add, d, b)));
    }
    if crate::dsp::numbers::positive(c.store) && crate::float_bits::at_most(c.damp, more) {
        assert(crate::float_bits::at_most(b, e));
        assert(crate::float_bits::at_most(sum, g(Calc::Add, a, e)));
    }
}

/// A diffuser turns a sample around and adds what it held; it takes in the sample and the more of what
/// it held the larger its feedback.
pub proof fn law_a_diffuser_turns_and_repeats(
    a: AllpassView,
    x: u32,
    more: u32,
    g: spec_fn(Calc, u32, u32) -> u32,
)
    requires
        crate::dsp::numbers::ordinary(g),
        1 <= a.delay <= a.past.len(),
        crate::dsp::numbers::within(x, 20),
        crate::dsp::numbers::within(more, 20),
        crate::dsp::numbers::within(a.feedback, 20),
        crate::dsp::numbers::within(a.past[a.delay - 1], 20),
    ensures
        ({
            let held = a.past[a.delay - 1];
            let n = crate::dsp::room::allpass_next(a, x, g);
            let t = crate::dsp::room::allpass_next(AllpassView { feedback: more, ..a }, x, g);
            &&& crate::dsp::numbers::zero(held) ==> crate::float_bits::same(
                crate::dsp::room::allpass_out(a, x, g),
                crate::float_bits::negated(x),
            )
            &&& crate::dsp::numbers::zero(x) ==> crate::float_bits::same(
                crate::dsp::room::allpass_out(a, x, g),
                held,
            )
            &&& crate::dsp::numbers::zero(held) ==> crate::float_bits::same(
                n.past[0],
                crate::dsp::room::settled(a.flushes, x),
            )
            &&& crate::dsp::numbers::positive(held) && crate::float_bits::at_most(a.feedback, more)
                ==> crate::float_bits::at_most(n.past[0], t.past[0])
        }),
{
    reveal(crate::dsp::numbers::ordinary);
    let held = a.past[a.delay - 1];
    let (p, q) = (g(Calc::Mul, held, a.feedback), g(Calc::Mul, held, more));
    assert(crate::dsp::numbers::within(p, 40) && crate::dsp::numbers::within(q, 40));
    let (m, n) = (g(Calc::Add, x, p), g(Calc::Add, x, q));
    if crate::dsp::numbers::zero(held) {
        assert(crate::dsp::numbers::zero(p));
        assert(crate::float_bits::same(m, x));
    }
    if crate::dsp::numbers::positive(held) && crate::float_bits::at_most(a.feedback, more) {
        assert(crate::float_bits::at_most(p, q));
        assert(crate::float_bits::at_most(m, n));
    }
}

/// Spectra are multiplied as complex numbers are: one changes nothing, and the imaginary unit turns by
/// a quarter.
pub proof fn law_spectra_are_multiplied(h: (u32, u32), g: spec_fn(Calc, u32, u32) -> u32)
    requires
        crate::dsp::numbers::ordinary(g),
        crate::dsp::numbers::within(h.0, 40),
        crate::dsp::numbers::within(h.1, 40),
    ensures
        ({
            let one = crate::dsp::convolver::product_added((0, 0), (ONE_BITS, 0), h, g);
            let unit = crate::dsp::convolver::product_added((0, 0), (0, ONE_BITS), h, g);
            &&& crate::float_bits::same(one.0, h.0)
            &&& crate::float_bits::same(one.1, h.1)
            &&& crate::float_bits::same(unit.0, crate::float_bits::negated(h.1))
            &&& crate::float_bits::same(unit.1, h.0)
        }),
{
    reveal(crate::dsp::numbers::ordinary);
    let (a, b) = (g(Calc::Mul, ONE_BITS, h.0), g(Calc::Mul, ONE_BITS, h.1));
    let (y, z) = (g(Calc::Mul, 0, h.0), g(Calc::Mul, 0, h.1));
    assert(crate::float_bits::same(a, h.0) && crate::float_bits::same(b, h.1));
    assert(crate::dsp::numbers::zero(y) && crate::dsp::numbers::zero(z));
    assert(crate::float_bits::same(g(Calc::Sub, a, z), a));
    assert(crate::float_bits::same(g(Calc::Add, b, y), b));
    assert(crate::float_bits::same(g(Calc::Sub, y, b), crate::float_bits::negated(b)));
    assert(crate::float_bits::same(g(Calc::Add, z, a), a));
}

/// A single sample in silence plays the taps of a phase, one after the other.
pub proof fn law_a_sample_plays_the_taps(
    taps: Seq<u32>,
    phase: int,
    past: Seq<u32>,
    k: int,
    n: nat,
    g: spec_fn(Calc, u32, u32) -> u32,
)
    requires
        crate::dsp::numbers::ordinary(g),
        n <= past.len(),
        0 <= k < past.len(),
        forall|i: int| 0 <= i < past.len() && i != k ==> crate::dsp::numbers::zero(#[trigger] past[i]),
        crate::dsp::numbers::within(past[k], 20),
        forall|i: int| 0 <= i < n ==> crate::dsp::numbers::within(#[trigger] taps[phase * 34 + i], 20),
    ensures
        n <= k ==> crate::dsp::numbers::zero(
            crate::dsp::oversample::phase_sum(0, taps, phase, past, n, g),
        ),
        n > k ==> crate::float_bits::same(
            crate::dsp::oversample::phase_sum(0, taps, phase, past, n, g),
            g(Calc::Mul, taps[phase * 34 + k], past[k]),
        ),
    decreases n,
{
    reveal(crate::dsp::numbers::ordinary);
    if n > 0 {
        let less = (n - 1) as nat;
        law_a_sample_plays_the_taps(taps, phase, past, k, less, g);
        let tap = taps[phase * 34 + less];
        assert(crate::dsp::numbers::within(tap, 20));
        let sum = crate::dsp::oversample::phase_sum(0, taps, phase, past, less, g);
        let m = g(Calc::Mul, tap, past[less as int]);
        if less == k {
            assert(crate::dsp::numbers::within(m, 40));
            assert(crate::float_bits::same(g(Calc::Add, sum, m), m));
        } else {
            assert(crate::dsp::numbers::zero(past[less as int]));
            assert(crate::dsp::numbers::zero(m));
            assert(crate::float_bits::same(g(Calc::Add, sum, m), sum));
        }
    }
}

/// What a band takes and what is left for the bands above make up what was there, where taking away
/// and adding again loses nothing; the last band takes all that is left.
pub proof fn law_a_band_takes_its_part(
    cs: Seq<Crossover>,
    x: u32,
    k: nat,
    g: spec_fn(Calc, u32, u32) -> u32,
)
    requires
        k < cs.len(),
        ({
            let rest = crate::dsp::multiband::left_over(cs, x, k, g);
            let low = crate::dsp::multiband::band_part(cs, x, k, g);
            g(Calc::Add, low, g(Calc::Sub, rest, low)) == rest
        }),
    ensures
        g(
            Calc::Add,
            crate::dsp::multiband::band_part(cs, x, k, g),
            crate::dsp::multiband::left_over(cs, x, k + 1, g),
        ) == crate::dsp::multiband::left_over(cs, x, k, g),
        crate::dsp::multiband::left_over(cs, x, 0, g) == x,
        crate::dsp::multiband::band_part(cs, x, cs.len(), g) == crate::dsp::multiband::left_over(
            cs,
            x,
            cs.len(),
            g,
        ),
{
}

/// A one-pole filter that keeps all stays as it is, and one that keeps nothing follows at once; between
/// them it rises with what it holds and with what comes in.
pub proof fn law_smoothing_follows(
    state: u32,
    more: u32,
    keep: u32,
    x: u32,
    g: spec_fn(Calc, u32, u32) -> u32,
)
    requires
        crate::dsp::numbers::ordinary(g),
        crate::dsp::numbers::within(state, 20),
        crate::dsp::numbers::within(more, 20),
        crate::dsp::numbers::within(x, 20),
        crate::dsp::numbers::positive(keep),
        crate::float_bits::less(keep, ONE_BITS),
        crate::float_bits::at_most(state, more),
    ensures
        crate::float_bits::same(crate::dsp::arith::smoothed(state, ONE_BITS, x, g), state),
        crate::float_bits::same(crate::dsp::arith::smoothed(state, 0, x, g), x),
        crate::float_bits::at_most(
            crate::dsp::arith::smoothed(state, keep, x, g),
            crate::dsp::arith::smoothed(more, keep, x, g),
        ),
        crate::float_bits::at_most(
            crate::dsp::arith::smoothed(x, keep, state, g),
            crate::dsp::arith::smoothed(x, keep, more, g),
        ),
{
    reveal(crate::dsp::numbers::ordinary);
    let one = g(Calc::Sub, ONE_BITS, ONE_BITS);
    assert(crate::dsp::numbers::zero(one));
    assert(crate::dsp::numbers::zero(g(Calc::Mul, x, one)));
    assert(crate::float_bits::same(g(Calc::Mul, state, ONE_BITS), state));
    let all = g(Calc::Sub, ONE_BITS, 0);
    assert(crate::float_bits::same(all, ONE_BITS));
    assert(crate::dsp::numbers::zero(g(Calc::Mul, state, 0)));
    assert(crate::float_bits::same(g(Calc::Mul, x, all), x));
    let rest = g(Calc::Sub, ONE_BITS, keep);
    assert(crate::dsp::numbers::within(ONE_BITS, 0) && crate::dsp::numbers::within(keep, 0));
    assert(crate::dsp::numbers::within(rest, 1) && crate::dsp::numbers::positive(rest));
    let (a, b, c) = (
        g(Calc::Mul, state, keep),
        g(Calc::Mul, more, keep),
        g(Calc::Mul, x, rest),
    );
    assert(crate::dsp::numbers::within(c, 21));
    assert(crate::float_bits::at_most(a, b));
    assert(crate::float_bits::at_most(g(Calc::Add, a, c), g(Calc::Add, b, c)));
    let (d, e, f) = (
        g(Calc::Mul, state, rest),
        g(Calc::Mul, more, rest),
        g(Calc::Mul, x, keep),
    );
    assert(crate::dsp::numbers::within(f, 20));
    assert(crate::float_bits::at_most(d, e));
    assert(crate::float_bits::at_most(g(Calc::Add, f, d), g(Calc::Add, f, e)));
}

/// With more loudspeakers each is turned down more: the sum of their gains rises with every one that
/// plays, and what they are divided by is that sum.
pub proof fn law_more_speakers_are_turned_down(
    speakers: Seq<SpeakerView>,
    other: Seq<SpeakerView>,
    g: spec_fn(Calc, u32, u32) -> u32,
)
    requires
        crate::dsp::numbers::ordinary(g),
        ({
            let (a, b) = (
                crate::dsp::surround::ring_gain(speakers, speakers.len(), g),
                crate::dsp::surround::ring_gain(other, other.len(), g),
            );
            &&& crate::float_bits::at_most(a, b)
            &&& crate::float_bits::less(crate::dsp::surround::SILENT_GAIN, a)
            &&& crate::float_bits::finite(b)
        }),
    ensures
        crate::float_bits::at_most(
            crate::dsp::surround::ring_norm(other, g),
            crate::dsp::surround::ring_norm(speakers, g),
        ),
{
    reveal(crate::dsp::numbers::ordinary);
    let a = crate::dsp::surround::ring_gain(speakers, speakers.len(), g);
    assert(crate::dsp::numbers::positive(a));
}

/// Another loudspeaker that plays adds to the sum of the gains, and one that is off does not; the ear
/// on its side hears all of it.
pub proof fn law_every_speaker_counts(
    speakers: Seq<SpeakerView>,
    n: nat,
    g: spec_fn(Calc, u32, u32) -> u32,
)
    requires
        crate::dsp::numbers::ordinary(g),
        n < speakers.len(),
        crate::float_bits::finite(crate::dsp::surround::ring_gain(speakers, n, g)),
        crate::dsp::numbers::not_negative(crate::dsp::surround::left_gain_of(speakers[n as int], g)),
    ensures
        crate::float_bits::at_most(
            crate::dsp::surround::ring_gain(speakers, n, g),
            crate::dsp::surround::ring_gain(speakers, n + 1, g),
        ),
        !speakers[n as int].speaker.on ==> crate::dsp::surround::ring_gain(speakers, n + 1, g)
            == crate::dsp::surround::ring_gain(speakers, n, g),
        speakers[n as int].speaker.left ==> crate::dsp::surround::left_gain_of(
            speakers[n as int],
            g,
        ) == speakers[n as int].feed_gain,
{
    reveal(crate::dsp::numbers::ordinary);
    let sum = crate::dsp::surround::ring_gain(speakers, n, g);
    let more = crate::dsp::surround::left_gain_of(speakers[n as int], g);
    assert(crate::float_bits::at_most(g(Calc::Add, sum, 0), g(Calc::Add, sum, more)));
}

/// With no intensity the ring is not heard, and with all of it the channel itself is not; the
/// loudspeakers are heard the louder the more they play.
pub proof fn law_the_intensity_of_the_ring_is_heard(
    s: SurroundView,
    next: SurroundView,
    dry: u32,
    sum: u32,
    more: u32,
    g: spec_fn(Calc, u32, u32) -> u32,
)
    requires
        crate::dsp::numbers::ordinary(g),
        crate::dsp::numbers::within(dry, 20),
        crate::dsp::numbers::within(sum, 20),
        crate::dsp::numbers::within(more, 20),
        crate::dsp::numbers::within(next.lfe, 20),
        crate::dsp::numbers::within(s.wet_norm, 20),
        crate::dsp::numbers::positive(s.wet_norm),
        crate::dsp::numbers::within(s.subwoofer, 0),
        crate::float_bits::at_most(0, s.intensity),
        crate::float_bits::at_most(s.intensity, ONE_BITS),
        crate::float_bits::at_most(sum, more),
    ensures
        crate::dsp::numbers::zero(s.intensity) ==> crate::float_bits::same(
            crate::dsp::surround::mixed_ear(s, next, dry, sum, g),
            dry,
        ),
        crate::float_bits::same(s.intensity, ONE_BITS) && crate::dsp::numbers::zero(s.subwoofer)
            && crate::float_bits::same(s.wet_norm, ONE_BITS) ==> crate::float_bits::same(
            crate::dsp::surround::mixed_ear(s, next, dry, sum, g),
            sum,
        ),
        crate::float_bits::less(0, s.intensity) ==> crate::float_bits::at_most(
            crate::dsp::surround::mixed_ear(s, next, dry, sum, g),
            crate::dsp::surround::mixed_ear(s, next, dry, more, g),
        ),
{
    reveal(crate::dsp::numbers::ordinary);
    let (a, b) = (g(Calc::Mul, sum, s.wet_norm), g(Calc::Mul, more, s.wet_norm));
    assert(crate::dsp::numbers::within(a, 40) && crate::dsp::numbers::within(b, 40));
    assert(crate::float_bits::at_most(a, b));
    let low = g(Calc::Mul, next.lfe, s.subwoofer);
    assert(crate::dsp::numbers::within(low, 20));
    assert(crate::dsp::numbers::within(low, 40));
    let (p, q) = if crate::float_bits::less(0, s.subwoofer) {
        (g(Calc::Add, a, low), g(Calc::Add, b, low))
    } else {
        (a, b)
    };
    assert(crate::dsp::numbers::within(g(Calc::Add, a, low), 41));
    assert(crate::dsp::numbers::within(g(Calc::Add, b, low), 41));
    assert(crate::dsp::numbers::within(p, 41) && crate::dsp::numbers::within(q, 41));
    assert(crate::float_bits::at_most(g(Calc::Add, a, low), g(Calc::Add, b, low)));
    assert(crate::float_bits::at_most(p, q));
    let left = g(Calc::Sub, ONE_BITS, s.intensity);
    assert(crate::dsp::numbers::within(ONE_BITS, 0) && crate::dsp::numbers::within(s.intensity, 0));
    assert(crate::dsp::numbers::within(left, 1));
    let kept = g(Calc::Mul, dry, left);
    assert(crate::dsp::numbers::within(kept, 21));
    let (m, n) = (g(Calc::Mul, p, s.intensity), g(Calc::Mul, q, s.intensity));
    if crate::dsp::numbers::zero(s.intensity) {
        assert(crate::dsp::numbers::zero(m));
        assert(crate::float_bits::same(left, ONE_BITS));
        assert(crate::float_bits::same(kept, dry));
    } else {
        assert(crate::dsp::numbers::positive(s.intensity));
        assert(crate::float_bits::at_most(m, n));
        assert(crate::float_bits::at_most(g(Calc::Add, kept, m), g(Calc::Add, kept, n)));
    }
    if crate::float_bits::same(s.intensity, ONE_BITS) {
        assert(crate::dsp::numbers::zero(left));
        assert(crate::dsp::numbers::zero(kept));
        assert(crate::float_bits::same(m, p));
    }
}

/// A band keeps the sides apart: where the left channel is silent and was, nothing comes out of it on
/// the left, and the same holds of the right.
pub proof fn law_a_band_keeps_sides(
    b: BandView,
    l: u32,
    r: u32,
    g: spec_fn(Calc, u32, u32) -> u32,
)
    requires
        crate::dsp::numbers::ordinary(g),
        crate::float_bits::finite(
            crate::dsp::band::applied(
                crate::dsp::band::gain_next(b, crate::dsp::band::frame_top(l, r), g),
                g,
            ),
        ),
    ensures
        crate::dsp::numbers::zero(l) && (forall|i: int|
            0 <= i < b.held.len() ==> crate::dsp::numbers::zero((#[trigger] b.held[i]).0))
            ==> crate::dsp::numbers::zero(crate::dsp::band::band_out(b, l, r, g).0),
        crate::dsp::numbers::zero(r) && (forall|i: int|
            0 <= i < b.held.len() ==> crate::dsp::numbers::zero((#[trigger] b.held[i]).1))
            ==> crate::dsp::numbers::zero(crate::dsp::band::band_out(b, l, r, g).1),
{
    reveal(crate::dsp::numbers::ordinary);
    let out = crate::dsp::delay::held_out(b.held, (l, r));
    assert(out == (l, r) || exists|i: int| 0 <= i < b.held.len() && #[trigger] b.held[i] == out);
}

} // verus!
