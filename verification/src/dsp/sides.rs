//! Which side is heard where: the ring of loudspeakers and the spatializer keep left and right apart.
//!
//! The laws hold of any arithmetic that orders values as numbers are ordered.

use vstd::prelude::*;
use crate::dsp::arith::Calc;
use crate::dsp::biquad::Biquad;
use crate::dsp::spatializer::{SpatialView, Spatializer};
use crate::dsp::stages::SurroundStage;
use crate::dsp::surround::{SpeakerView, SurroundView};
use crate::float_bits::ONE_BITS;
use crate::types::{SpatialMode, SpatializerState, Surround3DState, SurroundSpeakers};

verus! {

/// Silence in a line.
pub open spec fn silent(past: Seq<u32>) -> bool {
    forall|i: int| 0 <= i < past.len() ==> crate::dsp::numbers::zero(#[trigger] past[i])
}

/// A loudspeaker that has played nothing yet and is heard later by the far ear.
pub open spec fn resting(s: SpeakerView) -> bool {
    &&& s.past.len() >= 2
    &&& silent(s.past)
    &&& s.delay >= 1
    &&& crate::dsp::numbers::zero(s.shadow)
    &&& crate::dsp::numbers::within(s.keep, 0)
    &&& crate::dsp::numbers::within(s.far_gain, 0)
    &&& crate::dsp::numbers::within(s.feed_gain, 0)
    &&& crate::dsp::numbers::reaches(s.feed_gain, 10)
}

/// A ring whose loudspeakers stand where they belong, and that has played nothing yet: only the ring
/// is heard.
pub open spec fn ring_resting(s: SurroundView, on: SurroundSpeakers) -> bool {
    &&& s.speakers.len() == 6
    &&& forall|k: int|
        0 <= k < 6 ==> resting(#[trigger] s.speakers[k]) && s.speakers[k].speaker
            == crate::dsp::spatial::speaker_table(on)[k]
    &&& s.rear.len() >= 2
    &&& silent(s.rear)
    &&& s.rear_delay >= 1
    &&& crate::float_bits::same(s.intensity, ONE_BITS)
    &&& crate::dsp::numbers::zero(s.subwoofer)
    &&& crate::dsp::numbers::within(s.wet_norm, 10)
    &&& crate::dsp::numbers::reaches(s.wet_norm, 10)
}

proof fn lemma_speaker(s: SpeakerView, x: u32, g: spec_fn(Calc, u32, u32) -> u32)
    requires
        resting(s),
        crate::dsp::numbers::ordinary(g),
        crate::dsp::numbers::within(x, 20),
    ensures
        ({
            let (l, r) = crate::dsp::surround::speaker_ears(s, x, g);
            let (near, far) = if s.speaker.left {
                (l, r)
            } else {
                (r, l)
            };
            &&& crate::dsp::numbers::zero(far)
            &&& crate::dsp::numbers::within(near, 20)
            &&& crate::dsp::numbers::zero(x) ==> crate::dsp::numbers::zero(near)
            &&& crate::float_bits::at_most(0, x) ==> crate::float_bits::at_most(0, near)
            &&& s.speaker.on && crate::dsp::numbers::reaches(x, 40) ==> crate::dsp::numbers::reaches(
                near,
                50,
            )
        }),
{
    reveal(crate::dsp::numbers::ordinary);
    assert(crate::dsp::numbers::positive(s.feed_gain));
    let near = crate::dsp::surround::near_of(s, x, g);
    let past = crate::dsp::delay::pushed(s.past, near);
    let at = crate::dsp::delay::within(s.delay, s.past.len());
    assert(past[at] == s.past[at - 1]);
    let delayed = past[at];
    assert(crate::dsp::numbers::zero(delayed));
    assert(crate::dsp::numbers::within(ONE_BITS, 0));
    let open = g(Calc::Sub, ONE_BITS, s.keep);
    assert(crate::dsp::numbers::within(open, 1));
    let a = g(Calc::Mul, s.shadow, s.keep);
    let b = g(Calc::Mul, delayed, open);
    assert(crate::dsp::numbers::zero(a) && crate::dsp::numbers::zero(b));
    let shadow = g(Calc::Add, a, b);
    assert(crate::dsp::numbers::zero(shadow));
    assert(crate::dsp::numbers::zero(g(Calc::Mul, shadow, s.far_gain)));
    let none = g(Calc::Mul, 0, s.feed_gain);
    assert(crate::dsp::numbers::zero(none));
    assert(crate::float_bits::at_most(0, x) ==> crate::float_bits::at_most(none, near));
    assert(crate::dsp::numbers::within(near, 20));
}

proof fn lemma_ear(e: u32, a: u32, m: int, g: spec_fn(Calc, u32, u32) -> u32)
    requires
        crate::dsp::numbers::ordinary(g),
        20 <= m < 100,
        crate::dsp::numbers::within(e, m),
        crate::dsp::numbers::within(a, 20),
    ensures
        ({
            let sum = g(Calc::Add, e, a);
            &&& crate::dsp::numbers::within(sum, m + 1)
            &&& crate::dsp::numbers::zero(e) && crate::dsp::numbers::zero(a)
                ==> crate::dsp::numbers::zero(sum)
            &&& crate::float_bits::at_most(0, e) && crate::float_bits::at_most(0, a) ==> {
                &&& crate::float_bits::at_most(0, sum)
                &&& crate::dsp::numbers::reaches(e, 50) ==> crate::dsp::numbers::reaches(sum, 50)
                &&& crate::dsp::numbers::reaches(a, 50) ==> crate::dsp::numbers::reaches(sum, 50)
            }
        }),
{
    reveal(crate::dsp::numbers::ordinary);
    assert(crate::dsp::numbers::within(a, m));
    let sum = g(Calc::Add, e, a);
    let (only_e, only_a) = (g(Calc::Add, e, 0), g(Calc::Add, 0, a));
    assert(crate::float_bits::at_most(0, a) ==> crate::float_bits::at_most(only_e, sum));
    assert(crate::float_bits::at_most(0, e) ==> crate::float_bits::at_most(only_a, sum));
}

proof fn lemma_sum(
    s: SurroundView,
    on: SurroundSpeakers,
    n: nat,
    l: u32,
    r: u32,
    rear: u32,
    g: spec_fn(Calc, u32, u32) -> u32,
)
    requires
        ring_resting(s, on),
        n <= 6,
        crate::dsp::numbers::ordinary(g),
        crate::dsp::numbers::within(l, 20),
        crate::dsp::numbers::within(r, 20),
        crate::dsp::numbers::zero(rear),
    ensures
        ({
            let (el, er) = crate::dsp::surround::ring_ears(s.speakers, n, l, r, rear, g);
            &&& crate::dsp::numbers::within(el, 20 + n as int)
            &&& crate::dsp::numbers::within(er, 20 + n as int)
            &&& crate::dsp::numbers::zero(r) ==> crate::dsp::numbers::zero(er)
            &&& crate::dsp::numbers::zero(l) ==> crate::dsp::numbers::zero(el)
            &&& crate::float_bits::at_most(0, l) ==> crate::float_bits::at_most(0, el)
            &&& crate::float_bits::at_most(0, r) ==> crate::float_bits::at_most(0, er)
            &&& on.front_l && n >= 1 && crate::dsp::numbers::reaches(l, 40)
                ==> crate::dsp::numbers::reaches(el, 50)
            &&& on.side_l && n >= 3 && crate::dsp::numbers::reaches(l, 40)
                ==> crate::dsp::numbers::reaches(el, 50)
            &&& on.front_r && n >= 2 && crate::dsp::numbers::reaches(r, 40)
                ==> crate::dsp::numbers::reaches(er, 50)
            &&& on.side_r && n >= 4 && crate::dsp::numbers::reaches(r, 40)
                ==> crate::dsp::numbers::reaches(er, 50)
        }),
    decreases n,
{
    if n > 0 {
        lemma_sum(s, on, (n - 1) as nat, l, r, rear, g);
        let k = n - 1;
        let speaker = s.speakers[k];
        let table = crate::dsp::spatial::speaker_table(on);
        assert(speaker.speaker == table[k]);
        let x = crate::dsp::surround::feed_of(speaker.speaker.feed, l, r, rear);
        assert(crate::dsp::numbers::within(rear, 20));
        assert(crate::dsp::numbers::within(x, 20));
        lemma_speaker(speaker, x, g);
        let (el, er) = crate::dsp::surround::ring_ears(s.speakers, (n - 1) as nat, l, r, rear, g);
        let (a, b) = crate::dsp::surround::speaker_ears(speaker, x, g);
        lemma_ear(el, a, 20 + k, g);
        lemma_ear(er, b, 20 + k, g);
    }
}

/// The left channel plays from the left and the right channel from the right: where a ring at rest
/// hears a single channel, the ear on the other side hears nothing at first, and its own ear hears it
/// at once, with its sign, from the loudspeakers in front and at the side.
pub proof fn law_each_channel_plays_from_its_side(
    s: SurroundView,
    on: SurroundSpeakers,
    x: u32,
    silence: u32,
    g: spec_fn(Calc, u32, u32) -> u32,
)
    requires
        ring_resting(s, on),
        crate::dsp::numbers::ordinary(g),
        crate::dsp::numbers::within(x, 20),
        crate::dsp::numbers::reaches(x, 40),
        crate::dsp::numbers::zero(silence),
    ensures
        crate::dsp::numbers::zero(crate::dsp::surround::surround_out(s, x, silence, g).1),
        on.front_l || on.side_l ==> crate::float_bits::less(
            0,
            crate::dsp::surround::surround_out(s, x, silence, g).0,
        ),
        crate::dsp::numbers::zero(crate::dsp::surround::surround_out(s, silence, x, g).0),
        on.front_r || on.side_r ==> crate::float_bits::less(
            0,
            crate::dsp::surround::surround_out(s, silence, x, g).1,
        ),
{
    lemma_out(s, on, x, silence, g);
    lemma_out(s, on, silence, x, g);
}

proof fn lemma_out(
    s: SurroundView,
    on: SurroundSpeakers,
    l: u32,
    r: u32,
    g: spec_fn(Calc, u32, u32) -> u32,
)
    requires
        ring_resting(s, on),
        crate::dsp::numbers::ordinary(g),
        crate::dsp::numbers::within(l, 20),
        crate::dsp::numbers::within(r, 20),
    ensures
        ({
            let out = crate::dsp::surround::surround_out(s, l, r, g);
            &&& crate::dsp::numbers::zero(r) ==> crate::dsp::numbers::zero(out.1)
            &&& crate::dsp::numbers::zero(l) ==> crate::dsp::numbers::zero(out.0)
            &&& (on.front_l || on.side_l) && crate::dsp::numbers::reaches(l, 40)
                ==> crate::float_bits::less(0, out.0)
            &&& (on.front_r || on.side_r) && crate::dsp::numbers::reaches(r, 40)
                ==> crate::float_bits::less(0, out.1)
        }),
{
    let next = crate::dsp::surround::surround_next(s, l, r, g);
    let rear = crate::dsp::surround::rear_sample(s, l, r, g);
    let at = crate::dsp::delay::within(s.rear_delay, s.rear.len());
    assert(crate::dsp::surround::rear_next(s, l, r, g)[at] == s.rear[at - 1]);
    assert(crate::dsp::numbers::zero(rear));
    lemma_sum(s, on, 6, l, r, rear, g);
    let (el, er) = crate::dsp::surround::ring_ears(s.speakers, 6, l, r, rear, g);
    lemma_mixed(s, next, l, el, g);
    lemma_mixed(s, next, r, er, g);
}

proof fn lemma_mixed(
    s: SurroundView,
    next: SurroundView,
    dry: u32,
    sum: u32,
    g: spec_fn(Calc, u32, u32) -> u32,
)
    requires
        crate::dsp::numbers::ordinary(g),
        crate::dsp::numbers::within(dry, 20),
        crate::dsp::numbers::within(sum, 26),
        crate::float_bits::same(s.intensity, ONE_BITS),
        crate::dsp::numbers::zero(s.subwoofer),
        crate::dsp::numbers::within(s.wet_norm, 10),
        crate::dsp::numbers::reaches(s.wet_norm, 10),
    ensures
        ({
            let out = crate::dsp::surround::mixed_ear(s, next, dry, sum, g);
            &&& crate::dsp::numbers::zero(sum) ==> crate::dsp::numbers::zero(out)
            &&& crate::dsp::numbers::reaches(sum, 50) ==> crate::float_bits::less(0, out)
        }),
{
    reveal(crate::dsp::numbers::ordinary);
    let ring = g(Calc::Mul, sum, s.wet_norm);
    assert(crate::dsp::numbers::within(ring, 36));
    let rest = g(Calc::Sub, ONE_BITS, s.intensity);
    assert(crate::dsp::numbers::zero(rest));
    let left = g(Calc::Mul, dry, rest);
    assert(crate::dsp::numbers::zero(left));
    let wet = g(Calc::Mul, ring, s.intensity);
    assert(crate::float_bits::same(wet, ring));
    assert(crate::float_bits::same(g(Calc::Add, left, wet), wet));
    assert(crate::dsp::numbers::reaches(sum, 50) ==> crate::dsp::numbers::reaches(ring, 60));
}

/// The rear loudspeakers play what differs between the channels, the left one as it is and the right
/// one with the other sign: a frame that both channels share brings them nothing, and one that is
/// larger on the left something above zero.
pub proof fn law_the_rear_plays_what_differs(
    s: SurroundView,
    on: SurroundSpeakers,
    l: u32,
    r: u32,
    rear: u32,
    g: spec_fn(Calc, u32, u32) -> u32,
)
    requires
        crate::dsp::numbers::ordinary(g),
        crate::dsp::numbers::within(l, 20),
        crate::dsp::numbers::within(r, 20),
        s.rear.len() >= 2,
    ensures
        crate::float_bits::same(l, r) ==> crate::dsp::numbers::zero(
            crate::dsp::surround::rear_next(s, l, r, g)[0],
        ),
        crate::dsp::numbers::reaches(g(Calc::Sub, l, r), 40) ==> crate::float_bits::less(
            0,
            crate::dsp::surround::rear_next(s, l, r, g)[0],
        ),
        crate::dsp::surround::feed_of(
            crate::dsp::spatial::speaker_table(on)[4].feed,
            l,
            r,
            rear,
        ) == rear,
        crate::dsp::surround::feed_of(
            crate::dsp::spatial::speaker_table(on)[5].feed,
            l,
            r,
            rear,
        ) == crate::float_bits::negated(rear),
{
    reveal(crate::dsp::numbers::ordinary);
    let half = crate::dsp::arith::HALF_BITS;
    assert(crate::dsp::numbers::reaches(half, 1));
    let d = g(Calc::Sub, l, r);
    assert(crate::dsp::numbers::within(d, 21));
    let x = g(Calc::Mul, d, half);
    assert(crate::dsp::surround::rear_next(s, l, r, g)[0] == x);
    if crate::dsp::numbers::reaches(d, 40) {
        assert(crate::dsp::numbers::reaches(x, 41));
    }
}

/// A ring that takes settings stands where it belongs, each loudspeaker on where it is switched on,
/// and plays with the intensity and the low frequencies that are asked for.
pub proof fn law_a_ring_takes_its_settings<F: Fn(Calc, u32, u32) -> u32>(
    before: SurroundStage,
    params: Surround3DState,
    f: F,
    after: SurroundStage,
    g: spec_fn(Calc, u32, u32) -> u32,
)
    requires
        crate::dsp::arith::computes(f, g),
        crate::dsp::stages::surround_set(before, params, f, after),
        before.stage@.speakers.len() == 6,
        crate::float_bits::at_most(0, params.intensity),
        crate::float_bits::at_most(params.intensity, ONE_BITS),
        crate::float_bits::at_most(0, params.subwoofer),
        crate::float_bits::at_most(params.subwoofer, ONE_BITS),
    ensures
        after.stage@.enabled == params.enabled,
        after.stage@.intensity == params.intensity,
        after.stage@.subwoofer == params.subwoofer,
        after.stage@.speakers[0].speaker.on == params.speakers.front_l,
        after.stage@.speakers[1].speaker.on == params.speakers.front_r,
        after.stage@.speakers[2].speaker.on == params.speakers.side_l,
        after.stage@.speakers[3].speaker.on == params.speakers.side_r,
        after.stage@.speakers[4].speaker.on == params.speakers.surround_l,
        after.stage@.speakers[5].speaker.on == params.speakers.surround_r,
        forall|k: int|
            0 <= k < 6 ==> (#[trigger] after.stage@.speakers[k]).speaker.left == (k % 2 == 0),
{
    let table = crate::dsp::spatial::speaker_table(params.speakers);
    assert forall|k: int| 0 <= k < 6 implies (#[trigger] after.stage@.speakers[k]).speaker.left == (
    k % 2 == 0) by {
        assert(after.stage@.speakers[k].speaker == table[k]);
    }
}

/// A spatializer that has heard nothing yet.
pub open spec fn spatial_resting(s: SpatialView) -> bool {
    &&& s.left.len() >= 2
    &&& s.right.len() >= 2
    &&& silent(s.left)
    &&& silent(s.right)
    &&& s.delay >= 1
    &&& crate::dsp::numbers::zero(s.to_left)
    &&& crate::dsp::numbers::zero(s.to_right)
    &&& crate::dsp::numbers::within(s.cross_keep, 0)
    &&& crate::dsp::numbers::within(s.hrtf_keep, 0)
    &&& crate::float_bits::at_most(0, s.amount)
    &&& crate::float_bits::at_most(s.amount, ONE_BITS)
    &&& crate::dsp::numbers::zero(s.notch_left.z1)
    &&& crate::dsp::numbers::zero(s.notch_right.z1)
    &&& crate::dsp::numbers::within(s.notch_left.b0, 10)
    &&& crate::dsp::numbers::within(s.notch_right.b0, 10)
}

proof fn lemma_crossing(
    to: u32,
    keep: u32,
    past: Seq<u32>,
    x: u32,
    delay: int,
    g: spec_fn(Calc, u32, u32) -> u32,
)
    requires
        crate::dsp::numbers::ordinary(g),
        crate::dsp::numbers::zero(to),
        crate::dsp::numbers::within(keep, 0),
        past.len() >= 2,
        silent(past),
        delay >= 1,
    ensures
        crate::dsp::numbers::zero(
            crate::dsp::arith::smoothed(
                to,
                keep,
                crate::dsp::spatializer::late(past, x, delay),
                g,
            ),
        ),
{
    reveal(crate::dsp::numbers::ordinary);
    let at = crate::dsp::delay::within(delay, past.len());
    assert(crate::dsp::spatializer::taken(past, x)[at] == past[at - 1]);
    let late = crate::dsp::spatializer::late(past, x, delay);
    assert(crate::dsp::numbers::zero(late));
    assert(crate::dsp::numbers::within(ONE_BITS, 0));
    let open = g(Calc::Sub, ONE_BITS, keep);
    assert(crate::dsp::numbers::within(open, 1));
    assert(crate::dsp::numbers::zero(g(Calc::Mul, to, keep)));
    assert(crate::dsp::numbers::zero(g(Calc::Mul, late, open)));
}

proof fn lemma_level(
    l: u32,
    r: u32,
    level: u32,
    cl: u32,
    cr: u32,
    norm: u32,
    g: spec_fn(Calc, u32, u32) -> u32,
)
    requires
        crate::dsp::numbers::ordinary(g),
        crate::dsp::numbers::within(level, 0),
        crate::dsp::numbers::zero(cl),
        crate::dsp::numbers::zero(cr),
        crate::dsp::numbers::positive(norm),
        crate::float_bits::at_most(r, l),
    ensures
        crate::float_bits::at_most(
            crate::dsp::spatializer::with_crossing(r, level, cr, norm, g),
            crate::dsp::spatializer::with_crossing(l, level, cl, norm, g),
        ),
{
    reveal(crate::dsp::numbers::ordinary);
    let (p, q) = (g(Calc::Mul, level, cl), g(Calc::Mul, level, cr));
    assert(crate::dsp::numbers::zero(p) && crate::dsp::numbers::zero(q));
    let (x, y) = (g(Calc::Add, l, p), g(Calc::Add, r, q));
    assert(crate::float_bits::same(x, l) && crate::float_bits::same(y, r));
    assert(crate::float_bits::at_most(g(Calc::Mul, y, norm), g(Calc::Mul, x, norm)));
}

proof fn lemma_norm(level: u32, g: spec_fn(Calc, u32, u32) -> u32)
    requires
        crate::dsp::numbers::ordinary(g),
        crate::dsp::numbers::within(level, 0),
        crate::float_bits::at_most(0, level),
    ensures
        crate::dsp::numbers::positive(
            g(Calc::Div, ONE_BITS, g(Calc::Add, ONE_BITS, level)),
        ),
{
    reveal(crate::dsp::numbers::ordinary);
    assert(crate::dsp::numbers::within(ONE_BITS, 0) && crate::dsp::numbers::reaches(ONE_BITS, 0));
    let sum = g(Calc::Add, ONE_BITS, level);
    assert(crate::dsp::numbers::within(sum, 1));
    assert(crate::float_bits::at_most(g(Calc::Add, ONE_BITS, 0), sum));
    assert(crate::dsp::numbers::reaches(sum, 0));
    let norm = g(Calc::Div, ONE_BITS, sum);
    assert(crate::dsp::numbers::reaches(norm, 1));
    assert(crate::dsp::numbers::within(norm, 0));
}

/// The louder side stays the louder one, in both modes: a spatializer that has heard nothing yet never
/// swaps the channels of a frame.
pub proof fn law_the_spatializer_keeps_sides(
    s: SpatialView,
    l: u32,
    r: u32,
    g: spec_fn(Calc, u32, u32) -> u32,
)
    requires
        crate::dsp::numbers::ordinary(g),
        spatial_resting(s),
        crate::dsp::numbers::within(l, 20),
        crate::dsp::numbers::within(r, 20),
        crate::float_bits::at_most(r, l),
    ensures
        crate::float_bits::at_most(
            crate::dsp::spatializer::spatial_out(s, l, r, g).1,
            crate::dsp::spatializer::spatial_out(s, l, r, g).0,
        ),
{
    match s.mode {
        SpatialMode::Crossfeed => {
            lemma_crossing(s.to_left, s.cross_keep, s.right, r, s.delay, g);
            lemma_crossing(s.to_right, s.cross_keep, s.left, l, s.delay, g);
            let t = crate::dsp::spatializer::crossed(s, l, r, s.cross_keep, g);
            let level = g(Calc::Mul, s.amount, crate::dsp::arith::HALF_BITS);
            lemma_share(s.amount, crate::dsp::arith::HALF_BITS, g);
            lemma_norm(level, g);
            let norm = g(Calc::Div, ONE_BITS, g(Calc::Add, ONE_BITS, level));
            lemma_level(l, r, level, t.to_left, t.to_right, norm, g);
        },
        SpatialMode::Hrtf => {
            lemma_widened(s, l, r, g);
            let (wl, wr) = crate::dsp::spatializer::widened(s, l, r, g);
            lemma_crossing(s.to_left, s.hrtf_keep, s.right, wr, s.delay, g);
            lemma_crossing(s.to_right, s.hrtf_keep, s.left, wl, s.delay, g);
            let t = crate::dsp::spatializer::crossed(s, wl, wr, s.hrtf_keep, g);
            let level = g(Calc::Mul, s.amount, crate::dsp::spatializer::CROSSING);
            lemma_share(s.amount, crate::dsp::spatializer::CROSSING, g);
            lemma_share(level, crate::dsp::spatializer::SOFTENING, g);
            let soft = g(Calc::Mul, level, crate::dsp::spatializer::SOFTENING);
            lemma_norm(soft, g);
            let norm = g(Calc::Div, ONE_BITS, g(Calc::Add, ONE_BITS, soft));
            lemma_notch(t.notch_left, t.to_left, g);
            lemma_notch(t.notch_right, t.to_right, g);
            let cl = g(
                Calc::Mul,
                crate::dsp::biquad::section_out(t.notch_left, t.to_left, g),
                crate::dsp::spatializer::SOFTENING,
            );
            let cr = g(
                Calc::Mul,
                crate::dsp::biquad::section_out(t.notch_right, t.to_right, g),
                crate::dsp::spatializer::SOFTENING,
            );
            lemma_level(wl, wr, level, cl, cr, norm, g);
        },
    }
}

proof fn lemma_share(a: u32, b: u32, g: spec_fn(Calc, u32, u32) -> u32)
    requires
        crate::dsp::numbers::ordinary(g),
        crate::float_bits::at_most(0, a),
        crate::float_bits::at_most(a, ONE_BITS),
        crate::dsp::numbers::positive(b),
        crate::float_bits::at_most(b, ONE_BITS),
    ensures
        crate::dsp::numbers::within(g(Calc::Mul, a, b), 0),
        crate::float_bits::at_most(0, g(Calc::Mul, a, b)),
        crate::float_bits::at_most(g(Calc::Mul, a, b), ONE_BITS),
{
    reveal(crate::dsp::numbers::ordinary);
    assert(crate::dsp::numbers::within(a, 0) && crate::dsp::numbers::within(b, 0));
    let x = g(Calc::Mul, a, b);
    assert(crate::float_bits::at_most(g(Calc::Mul, 0, b), x));
}

proof fn lemma_notch(s: Biquad, x: u32, g: spec_fn(Calc, u32, u32) -> u32)
    requires
        crate::dsp::numbers::ordinary(g),
        crate::dsp::numbers::zero(x),
        crate::dsp::numbers::zero(s.z1),
        crate::dsp::numbers::within(s.b0, 10),
    ensures
        crate::dsp::numbers::zero(
            g(
                Calc::Mul,
                crate::dsp::biquad::section_out(s, x, g),
                crate::dsp::spatializer::SOFTENING,
            ),
        ),
{
    reveal(crate::dsp::numbers::ordinary);
    assert(crate::dsp::numbers::zero(g(Calc::Mul, s.b0, x)));
    assert(crate::dsp::numbers::zero(crate::dsp::biquad::section_out(s, x, g)));
    assert(crate::float_bits::finite(crate::dsp::spatializer::SOFTENING));
}

proof fn lemma_widened(s: SpatialView, l: u32, r: u32, g: spec_fn(Calc, u32, u32) -> u32)
    requires
        crate::dsp::numbers::ordinary(g),
        crate::float_bits::at_most(0, s.amount),
        crate::float_bits::at_most(s.amount, ONE_BITS),
        crate::dsp::numbers::within(l, 20),
        crate::dsp::numbers::within(r, 20),
        crate::float_bits::at_most(r, l),
    ensures
        crate::float_bits::at_most(
            crate::dsp::spatializer::widened(s, l, r, g).1,
            crate::dsp::spatializer::widened(s, l, r, g).0,
        ),
{
    reveal(crate::dsp::numbers::ordinary);
    let half = crate::dsp::arith::HALF_BITS;
    let widening = crate::dsp::spatializer::WIDENING;
    lemma_share(s.amount, widening, g);
    let width = g(Calc::Add, ONE_BITS, g(Calc::Mul, s.amount, widening));
    assert(crate::dsp::numbers::within(ONE_BITS, 0) && crate::dsp::numbers::within(half, 0));
    assert(crate::dsp::numbers::within(width, 1));
    assert(crate::float_bits::at_most(g(Calc::Add, ONE_BITS, 0), width));
    assert(crate::dsp::numbers::positive(width) && crate::dsp::numbers::positive(half));
    let sum = g(Calc::Add, l, r);
    assert(crate::dsp::numbers::within(sum, 21));
    let mid = g(Calc::Mul, sum, half);
    assert(crate::dsp::numbers::within(mid, 21));
    let d = g(Calc::Sub, l, r);
    assert(crate::dsp::numbers::within(d, 21));
    assert(crate::float_bits::at_most(g(Calc::Sub, r, r), d));
    let h = g(Calc::Mul, d, half);
    assert(crate::dsp::numbers::within(h, 21));
    assert(crate::float_bits::at_most(g(Calc::Mul, 0, half), h));
    let side = g(Calc::Mul, h, width);
    assert(crate::dsp::numbers::within(side, 22));
    assert(crate::float_bits::at_most(g(Calc::Mul, 0, width), side));
    assert(crate::float_bits::at_most(g(Calc::Add, mid, 0), g(Calc::Add, mid, side)));
    assert(crate::float_bits::at_most(g(Calc::Sub, mid, side), g(Calc::Sub, mid, 0)));
}

/// What crosses over to a side comes from the other one: nothing crosses to the right as long as the
/// left channel is silent, and nothing to the left as long as the right one is.
pub proof fn law_what_crosses_comes_from_the_other_side(
    s: SpatialView,
    l: u32,
    r: u32,
    g: spec_fn(Calc, u32, u32) -> u32,
)
    requires
        crate::dsp::numbers::ordinary(g),
        s.mode == SpatialMode::Crossfeed,
        s.left.len() >= 2,
        s.right.len() >= 2,
        s.delay >= 1,
        crate::dsp::numbers::within(s.cross_keep, 0),
    ensures
        silent(s.left) && crate::dsp::numbers::zero(s.to_right) ==> crate::dsp::numbers::zero(
            crate::dsp::spatializer::spatial_next(s, l, r, g).to_right,
        ),
        silent(s.right) && crate::dsp::numbers::zero(s.to_left) ==> crate::dsp::numbers::zero(
            crate::dsp::spatializer::spatial_next(s, l, r, g).to_left,
        ),
        crate::dsp::spatializer::spatial_next(s, l, r, g).left[0] == l,
        crate::dsp::spatializer::spatial_next(s, l, r, g).right[0] == r,
{
    if silent(s.left) && crate::dsp::numbers::zero(s.to_right) {
        lemma_crossing(s.to_right, s.cross_keep, s.left, l, s.delay, g);
    }
    if silent(s.right) && crate::dsp::numbers::zero(s.to_left) {
        lemma_crossing(s.to_left, s.cross_keep, s.right, r, s.delay, g);
    }
}

/// The spatializer takes its settings.
pub proof fn law_the_spatializer_takes_its_settings(
    before: Spatializer,
    params: SpatializerState,
    after: Spatializer,
)
    requires
        crate::dsp::stages::spatializer_set(before, params, after),
        crate::float_bits::at_most(0, params.amount),
        crate::float_bits::at_most(params.amount, ONE_BITS),
    ensures
        after@.enabled == params.enabled,
        after@.amount == params.amount,
        after@.mode == params.mode,
        after@.left == before@.left,
        after@.right == before@.right,
        after@.delay == before@.delay,
{
}

} // verus!
