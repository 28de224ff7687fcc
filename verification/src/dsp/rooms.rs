//! What the settings of rooms and of the convolver do to what is heard.
//!
//! The laws hold of any arithmetic that orders values as numbers are ordered.

use vstd::prelude::*;
use crate::dsp::arith::Calc;
use crate::dsp::impulse::ImpulseView;
use crate::dsp::room::RoomView;
use crate::dsp::stages::{RoomStage, RoomTune};
use crate::float_bits::ONE_BITS;
use crate::types::{ConvolverState, RoomState};

verus! {

proof fn lemma_unit(a: u32, b: u32)
    requires
        crate::float_bits::at_most(a, b),
    ensures
        crate::float_bits::at_most(crate::dsp::arith::unit(a), crate::dsp::arith::unit(b)),
        crate::dsp::numbers::within(crate::dsp::arith::unit(a), 0),
        crate::float_bits::at_most(0, crate::dsp::arith::unit(a)),
{
}

/// How long a tuned room rings: the feedback of its combs on either side.
pub open spec fn rings(v: RoomView, i: int) -> (u32, u32) {
    (v.left.combs[i].feedback, v.right.combs[i].feedback)
}

/// How large a tuned room is: the delays of its combs on either side.
pub open spec fn sizes(v: RoomView, i: int) -> (int, int) {
    (v.left.combs[i].delay, v.right.combs[i].delay)
}

/// How dull a tuned room is: the damping of its combs on either side.
pub open spec fn dulls(v: RoomView, i: int) -> (u32, u32) {
    (v.left.combs[i].damp, v.right.combs[i].damp)
}

/// Two rooms that are tuned at the same sample rate.
pub open spec fn comparable(
    v: RoomView,
    a: RoomTune,
    b: RoomTune,
    rate: u32,
    i: int,
    g: spec_fn(Calc, u32, u32) -> u32,
) -> bool {
    &&& crate::dsp::numbers::ordinary(g)
    &&& crate::dsp::numbers::within(rate, 20)
    &&& crate::dsp::numbers::reaches(rate, 0)
    &&& 0 <= i < v.left.combs.len() == 8
    &&& v.right.combs.len() == 8
    &&& crate::float_bits::at_most(a.decay, b.decay)
    &&& crate::float_bits::at_most(a.damping, b.damping)
    &&& crate::float_bits::at_most(a.room_size, b.room_size)
    &&& crate::float_bits::at_most(a.diffusion, b.diffusion)
    &&& crate::float_bits::at_most(a.pre_delay, b.pre_delay)
}

/// A room rings longer the longer its decay is set, is duller the more it is damped, larger the
/// larger it is set, denser the more it diffuses, and answers later the longer its pre-delay is.
/// Without decay its combs feed back 0.7 of what they hold, and without damping nothing is dulled.
pub proof fn law_rooms_follow_their_settings(
    v: RoomView,
    a: RoomTune,
    b: RoomTune,
    rate: u32,
    i: int,
    k: int,
    g: spec_fn(Calc, u32, u32) -> u32,
)
    requires
        comparable(v, a, b, rate, i, g),
        0 <= k < v.left.diffusers.len(),
        0 <= k < v.right.diffusers.len(),
    ensures
        ({
            let x = crate::dsp::stages::room_tuned(v, a, rate, g);
            let y = crate::dsp::stages::room_tuned(v, b, rate, g);
            &&& crate::float_bits::at_most(rings(x, i).0, rings(y, i).0)
            &&& crate::float_bits::at_most(rings(x, i).1, rings(y, i).1)
            &&& crate::float_bits::at_most(dulls(x, i).0, dulls(y, i).0)
            &&& crate::float_bits::at_most(dulls(x, i).1, dulls(y, i).1)
            &&& sizes(x, i).0 <= sizes(y, i).0
            &&& sizes(x, i).1 <= sizes(y, i).1
            &&& crate::float_bits::at_most(
                x.left.diffusers[k].feedback,
                y.left.diffusers[k].feedback,
            )
            &&& crate::float_bits::at_most(
                x.right.diffusers[k].feedback,
                y.right.diffusers[k].feedback,
            )
            &&& x.pre_delay <= y.pre_delay
            &&& crate::float_bits::at_most(a.decay, 0) ==> crate::float_bits::same(
                rings(x, i).0,
                0x3f33_3333,
            ) && crate::float_bits::same(rings(x, i).1, 0x3f33_3333)
            &&& crate::float_bits::at_most(a.damping, 0) ==> crate::dsp::numbers::zero(
                dulls(x, i).0,
            ) && crate::dsp::numbers::zero(dulls(x, i).1)
        }),
{
    lemma_rings(a.decay, b.decay, g);
    lemma_dulls(a.damping, b.damping, g);
    lemma_diffuses(a.diffusion, b.diffusion, g);
    lemma_waits(a.pre_delay, b.pre_delay, rate, g);
    lemma_comb(true, i, a.room_size, b.room_size, rate, g);
    lemma_comb(false, i, a.room_size, b.room_size, rate, g);
}

proof fn lemma_rings(a: u32, b: u32, g: spec_fn(Calc, u32, u32) -> u32)
    requires
        crate::dsp::numbers::ordinary(g),
        crate::float_bits::at_most(a, b),
    ensures
        ({
            let scale = crate::dsp::tuning::DECAY_SCALE;
            let least = crate::dsp::tuning::DECAY_LEAST;
            let most = crate::dsp::tuning::DECAY_MOST;
            let x = g(Calc::Add, g(Calc::Mul, crate::dsp::arith::unit(a), scale), least);
            let y = g(Calc::Add, g(Calc::Mul, crate::dsp::arith::unit(b), scale), least);
            &&& crate::float_bits::at_most(
                crate::dsp::tuning::from_zero(x, most),
                crate::dsp::tuning::from_zero(y, most),
            )
            &&& crate::float_bits::at_most(a, 0) ==> crate::float_bits::same(
                crate::dsp::tuning::from_zero(x, most),
                0x3f33_3333,
            )
        }),
{
    reveal(crate::dsp::numbers::ordinary);
    lemma_unit(a, b);
    let scale = crate::dsp::tuning::DECAY_SCALE;
    let least = crate::dsp::tuning::DECAY_LEAST;
    assert(crate::dsp::numbers::positive(scale));
    let (u, w) = (crate::dsp::arith::unit(a), crate::dsp::arith::unit(b));
    let (x, y) = (g(Calc::Mul, u, scale), g(Calc::Mul, w, scale));
    assert(crate::float_bits::at_most(x, y));
    assert(crate::float_bits::at_most(g(Calc::Add, x, least), g(Calc::Add, y, least)));
    if crate::float_bits::at_most(a, 0) {
        assert(crate::dsp::numbers::zero(u));
        assert(crate::dsp::numbers::zero(x));
    }
}

proof fn lemma_dulls(a: u32, b: u32, g: spec_fn(Calc, u32, u32) -> u32)
    requires
        crate::dsp::numbers::ordinary(g),
        crate::float_bits::at_most(a, b),
    ensures
        ({
            let scale = crate::dsp::tuning::DAMP_SCALE;
            let x = g(Calc::Mul, crate::dsp::arith::unit(a), scale);
            let y = g(Calc::Mul, crate::dsp::arith::unit(b), scale);
            &&& crate::float_bits::at_most(x, y)
            &&& crate::float_bits::at_most(a, 0) ==> crate::dsp::numbers::zero(x)
        }),
{
    reveal(crate::dsp::numbers::ordinary);
    lemma_unit(a, b);
    assert(crate::dsp::numbers::positive(crate::dsp::tuning::DAMP_SCALE));
    if crate::float_bits::at_most(a, 0) {
        assert(crate::dsp::numbers::zero(crate::dsp::arith::unit(a)));
    }
}

proof fn lemma_diffuses(a: u32, b: u32, g: spec_fn(Calc, u32, u32) -> u32)
    requires
        crate::dsp::numbers::ordinary(g),
        crate::float_bits::at_most(a, b),
    ensures
        ({
            let scale = crate::dsp::tuning::DIFFUSION_SCALE;
            let least = crate::dsp::tuning::DIFFUSION_LEAST;
            crate::float_bits::at_most(
                g(Calc::Add, least, g(Calc::Mul, crate::dsp::arith::unit(a), scale)),
                g(Calc::Add, least, g(Calc::Mul, crate::dsp::arith::unit(b), scale)),
            )
        }),
{
    reveal(crate::dsp::numbers::ordinary);
    lemma_unit(a, b);
    let scale = crate::dsp::tuning::DIFFUSION_SCALE;
    assert(crate::dsp::numbers::positive(scale));
    let (u, w) = (crate::dsp::arith::unit(a), crate::dsp::arith::unit(b));
    assert(crate::float_bits::at_most(g(Calc::Mul, u, scale), g(Calc::Mul, w, scale)));
}

proof fn lemma_waits(a: u32, b: u32, rate: u32, g: spec_fn(Calc, u32, u32) -> u32)
    requires
        crate::dsp::numbers::ordinary(g),
        crate::float_bits::at_most(a, b),
        crate::dsp::numbers::within(rate, 20),
        crate::dsp::numbers::reaches(rate, 0),
    ensures
        ({
            let most = crate::dsp::tuning::LONGEST_PRE_DELAY;
            let milli = crate::dsp::tuning::MILLI_BITS;
            let x = crate::dsp::tuning::from_zero(a, most);
            let y = crate::dsp::tuning::from_zero(b, most);
            crate::dsp::tuning::counted(g(Calc::Mul, g(Calc::Mul, x, milli), rate), g)
                <= crate::dsp::tuning::counted(g(Calc::Mul, g(Calc::Mul, y, milli), rate), g)
        }),
{
    reveal(crate::dsp::numbers::ordinary);
    let most = crate::dsp::tuning::LONGEST_PRE_DELAY;
    let milli = crate::dsp::tuning::MILLI_BITS;
    let x = crate::dsp::tuning::from_zero(a, most);
    let y = crate::dsp::tuning::from_zero(b, most);
    assert(crate::float_bits::at_most(x, y));
    assert(crate::dsp::numbers::positive(milli));
    assert(crate::dsp::numbers::positive(rate));
    let (p, q) = (g(Calc::Mul, x, milli), g(Calc::Mul, y, milli));
    assert(crate::float_bits::at_most(p, q));
    assert(crate::float_bits::at_most(g(Calc::Mul, p, rate), g(Calc::Mul, q, rate)));
}

proof fn lemma_comb(
    left: bool,
    i: int,
    a: u32,
    b: u32,
    rate: u32,
    g: spec_fn(Calc, u32, u32) -> u32,
)
    requires
        crate::dsp::numbers::ordinary(g),
        crate::float_bits::at_most(a, b),
        crate::dsp::numbers::within(rate, 20),
        crate::dsp::numbers::reaches(rate, 0),
        0 <= i < 8,
    ensures
        1 <= crate::dsp::tuning::comb_delay(left, i, a, rate, g) <= crate::dsp::tuning::comb_delay(
            left,
            i,
            b,
            rate,
            g,
        ) <= 0x7fff_ffff,
{
    reveal(crate::dsp::numbers::ordinary);
    lemma_unit(a, b);
    let more = crate::dsp::tuning::SIZE_MORE;
    let least = crate::dsp::tuning::SIZE_LEAST;
    let (u, w) = (crate::dsp::arith::unit(a), crate::dsp::arith::unit(b));
    assert(crate::dsp::numbers::positive(more));
    let (p, q) = (g(Calc::Mul, more, u), g(Calc::Mul, more, w));
    assert(crate::float_bits::at_most(p, q));
    let (x, y) = (g(Calc::Add, least, p), g(Calc::Add, least, q));
    assert(crate::float_bits::at_most(x, y));
    let length = crate::dsp::tuning::room_lengths(left).0[i];
    assert(length >= 1);
    let whole = g(Calc::Whole, length, 0);
    assert(crate::float_bits::at_most(g(Calc::Whole, 1, 0), whole));
    assert(crate::dsp::numbers::reaches(whole, 0));
    assert(crate::dsp::numbers::within(whole, 32));
    let reference = crate::dsp::tuning::REFERENCE_RATE;
    assert(crate::dsp::numbers::within(reference, 20) && crate::dsp::numbers::positive(reference));
    assert(crate::dsp::numbers::reaches(reference, 0));
    let scale = g(Calc::Div, rate, reference);
    assert(crate::dsp::numbers::reaches(scale, 20));
    assert(crate::dsp::numbers::within(scale, 20));
    let base = g(Calc::Mul, whole, scale);
    assert(crate::dsp::numbers::reaches(base, 20) && crate::dsp::numbers::within(base, 52));
    assert(crate::dsp::numbers::positive(base));
    assert(crate::float_bits::at_most(g(Calc::Mul, base, x), g(Calc::Mul, base, y)));
}

/// A room that takes settings anew is tuned to them, each cut to its range; the share of the room in
/// what is heard and whether it is on are as they are set in any case.
pub proof fn law_a_room_takes_its_settings<F: Fn(Calc, u32, u32) -> u32>(
    before: RoomStage,
    params: RoomState,
    f: F,
    after: RoomStage,
    g: spec_fn(Calc, u32, u32) -> u32,
)
    requires
        crate::dsp::arith::computes(f, g),
        crate::dsp::stages::room_set(before, params, f, after),
        crate::dsp::numbers::within(params.room_size, 0),
        crate::dsp::numbers::within(params.decay, 0),
        crate::dsp::numbers::within(params.damping, 0),
        crate::dsp::numbers::within(params.diffusion, 0),
        crate::dsp::numbers::within(params.wet_dry, 0),
        crate::float_bits::at_most(0, params.room_size),
        crate::float_bits::at_most(0, params.decay),
        crate::float_bits::at_most(0, params.damping),
        crate::float_bits::at_most(0, params.diffusion),
        crate::float_bits::at_most(0, params.wet_dry),
        crate::float_bits::at_most(0, params.pre_delay),
        crate::float_bits::at_most(params.pre_delay, 0x4348_0000),
    ensures
        after.stage@.enabled == params.enabled,
        crate::float_bits::same(after.stage@.wet, params.wet_dry),
        crate::dsp::stages::room_moved(before.tune, params, g) ==> {
            &&& crate::float_bits::same(after.tune.room_size, params.room_size)
            &&& crate::float_bits::same(after.tune.decay, params.decay)
            &&& crate::float_bits::same(after.tune.damping, params.damping)
            &&& crate::float_bits::same(after.tune.diffusion, params.diffusion)
            &&& crate::float_bits::same(after.tune.pre_delay, params.pre_delay)
        },
{
}

/// The share of a room in what is heard: without any the dry signal is heard, and with all of it the
/// room alone, on each side.
pub proof fn law_the_share_of_a_room_is_heard(
    s: RoomView,
    dry: u32,
    wet: u32,
    g: spec_fn(Calc, u32, u32) -> u32,
)
    requires
        crate::dsp::numbers::ordinary(g),
        crate::dsp::numbers::within(dry, 1),
        crate::dsp::numbers::within(wet, 1),
    ensures
        crate::dsp::numbers::zero(s.wet) ==> crate::float_bits::same(
            crate::dsp::room::room_side(s, dry, wet, g),
            dry,
        ),
        crate::float_bits::same(s.wet, ONE_BITS) ==> crate::float_bits::same(
            crate::dsp::room::room_side(s, dry, wet, g),
            wet,
        ),
{
    reveal(crate::dsp::numbers::ordinary);
    let rest = g(Calc::Sub, ONE_BITS, s.wet);
    let (a, b) = (g(Calc::Mul, dry, rest), g(Calc::Mul, wet, s.wet));
    let sum = g(Calc::Add, a, b);
    if crate::dsp::numbers::zero(s.wet) {
        assert(crate::float_bits::same(rest, ONE_BITS));
        assert(crate::float_bits::same(a, dry));
        assert(crate::dsp::numbers::zero(b));
        assert(crate::float_bits::same(sum, a));
    }
    if crate::float_bits::same(s.wet, ONE_BITS) {
        assert(crate::dsp::numbers::zero(rest));
        assert(crate::dsp::numbers::zero(a));
        assert(crate::float_bits::same(sum, b));
    }
}

/// Each side of a room is heard on its side only, and both channels enter the room on both sides: what
/// enters is the same whichever of the channels carries a sample, where the other one is silent.
pub proof fn law_both_channels_enter_the_room(
    s: RoomView,
    other: RoomView,
    l: u32,
    r: u32,
    x: u32,
    silence: u32,
    g: spec_fn(Calc, u32, u32) -> u32,
)
    requires
        crate::dsp::numbers::ordinary(g),
        crate::dsp::numbers::within(x, 20),
        crate::dsp::numbers::zero(silence),
        s.pre_delay == 0,
    ensures
        s.left == other.left && s.wet == other.wet ==> crate::dsp::room::room_out(s, l, r, g).0
            == crate::dsp::room::room_out(other, l, x, g).0,
        s.right == other.right && s.wet == other.wet ==> crate::dsp::room::room_out(s, l, r, g).1
            == crate::dsp::room::room_out(other, x, r, g).1,
        crate::float_bits::same(
            crate::dsp::room::room_input(s, x, silence, g),
            crate::dsp::room::room_input(s, silence, x, g),
        ),
        crate::dsp::numbers::reaches(x, 40) ==> crate::float_bits::less(
            0,
            crate::dsp::room::room_input(s, x, silence, g),
        ),
{
    reveal(crate::dsp::numbers::ordinary);
    let (a, b) = (g(Calc::Add, x, silence), g(Calc::Add, silence, x));
    assert(crate::float_bits::same(a, x) && crate::float_bits::same(b, x));
    let share = crate::dsp::room::ROOM_INPUT;
    assert(crate::dsp::numbers::positive(share));
    assert(crate::dsp::numbers::reaches(share, 10));
    let (p, q) = (g(Calc::Mul, a, share), g(Calc::Mul, b, share));
    assert(crate::float_bits::at_most(p, q) && crate::float_bits::at_most(q, p));
    if crate::dsp::numbers::reaches(x, 40) {
        assert(crate::dsp::numbers::reaches(a, 40));
        assert(crate::dsp::numbers::reaches(p, 50));
    }
}

/// The convolver takes its settings: its gain is the one that is asked for, and its share is cut to
/// the range from zero to one.
pub proof fn law_the_convolver_takes_its_settings(
    v: (ImpulseView, ImpulseView),
    params: (ConvolverState, ConvolverState),
    g: spec_fn(Calc, u32, u32) -> u32,
)
    requires
        crate::dsp::numbers::ordinary(g),
        !crate::float_bits::undefined(params.0.ir_gain_db),
        !crate::float_bits::undefined(params.1.ir_gain_db),
        !crate::float_bits::undefined(params.0.wet_dry),
    ensures
        ({
            let a = crate::dsp::impulse::impulse_set(v.0, params.0, g);
            let b = crate::dsp::impulse::impulse_set(v.1, params.1, g);
            &&& crate::dsp::levels::factors_follow(
                params.0.ir_gain_db,
                a.gain,
                params.1.ir_gain_db,
                b.gain,
            )
            &&& a.enabled == params.0.enabled
            &&& crate::float_bits::at_most(0, a.wet) && crate::float_bits::at_most(a.wet, ONE_BITS)
            &&& crate::float_bits::at_most(0, params.0.wet_dry) && crate::float_bits::at_most(
                params.0.wet_dry,
                ONE_BITS,
            ) ==> a.wet == params.0.wet_dry
            &&& a.response == v.0.response
            &&& a.lines == v.0.lines
        }),
{
    crate::dsp::levels::lemma_factors(params.0.ir_gain_db, params.1.ir_gain_db, g);
}

/// The share of the response in what is heard: without any the dry signal is heard, and with all of
/// it the response alone, at the level of its gain: none of it where the gain is nothing, and as much
/// as there is where the gain is one. More gain brings more of it.
pub proof fn law_the_share_of_a_response_is_heard(
    x: u32,
    y: u32,
    wet: u32,
    gain: u32,
    more: u32,
    g: spec_fn(Calc, u32, u32) -> u32,
)
    requires
        crate::dsp::numbers::ordinary(g),
        crate::dsp::numbers::within(x, 20),
        crate::dsp::numbers::within(y, 20),
        crate::dsp::numbers::within(gain, 20),
        crate::dsp::numbers::within(more, 20),
        crate::float_bits::at_most(gain, more),
        crate::dsp::numbers::positive(y),
    ensures
        crate::dsp::numbers::zero(wet) ==> crate::float_bits::same(
            crate::dsp::impulse::mixed(x, y, wet, gain, g),
            x,
        ),
        crate::float_bits::same(wet, ONE_BITS) && crate::float_bits::same(gain, ONE_BITS)
            ==> crate::float_bits::same(crate::dsp::impulse::mixed(x, y, wet, gain, g), y),
        crate::float_bits::same(wet, ONE_BITS) && crate::dsp::numbers::zero(gain)
            ==> crate::dsp::numbers::zero(crate::dsp::impulse::mixed(x, y, wet, gain, g)),
        crate::float_bits::same(wet, ONE_BITS) ==> crate::float_bits::at_most(
            crate::dsp::impulse::mixed(x, y, wet, gain, g),
            crate::dsp::impulse::mixed(x, y, wet, more, g),
        ),
{
    reveal(crate::dsp::numbers::ordinary);
    let rest = g(Calc::Sub, ONE_BITS, wet);
    let (a, p, q) = (g(Calc::Mul, x, rest), g(Calc::Mul, y, gain), g(Calc::Mul, y, more));
    assert(crate::dsp::numbers::within(p, 40) && crate::dsp::numbers::within(q, 40));
    assert(crate::float_bits::at_most(p, q));
    let (b, c) = (g(Calc::Mul, p, wet), g(Calc::Mul, q, wet));
    let (sum, other) = (g(Calc::Add, a, b), g(Calc::Add, a, c));
    if crate::dsp::numbers::zero(wet) {
        assert(crate::float_bits::same(rest, ONE_BITS));
        assert(crate::dsp::numbers::zero(b));
        assert(crate::float_bits::same(sum, a));
    }
    if crate::float_bits::same(wet, ONE_BITS) {
        assert(crate::dsp::numbers::zero(rest));
        assert(crate::dsp::numbers::zero(a));
        assert(crate::float_bits::same(b, p) && crate::float_bits::same(c, q));
        assert(crate::float_bits::same(sum, b) && crate::float_bits::same(other, c));
    }
}

/// Each channel is convolved with its own response: what comes out of one does not depend on what the
/// other channels carry, nor on their responses.
pub proof fn law_channels_are_convolved_alone(
    v: ImpulseView,
    other: ImpulseView,
    block: Seq<u32>,
    changed: Seq<u32>,
    channels: int,
    c: int,
    n: int,
    t: spec_fn(Seq<u32>) -> Seq<(u32, u32)>,
    b: spec_fn(Seq<(u32, u32)>) -> Seq<u32>,
    g: spec_fn(Calc, u32, u32) -> u32,
)
    requires
        0 <= c < channels,
        block.len() == changed.len(),
        0 <= n < block.len() as int / channels,
        !crate::dsp::impulse::passes(v, channels),
        !crate::dsp::impulse::passes(other, channels),
        v.lines.len() == channels == other.lines.len(),
        v.response.len() == channels == other.response.len(),
        v.lines[c] == other.lines[c],
        v.response[c] == other.response[c],
        v.wet == other.wet,
        v.gain == other.gain,
        forall|k: int|
            0 <= k < block.len() as int / channels ==> #[trigger] block[k * channels + c]
                == changed[k * channels + c],
    ensures
        crate::dsp::impulse::impulse_block(v, block, channels, t, b, g).1[n * channels + c]
            == crate::dsp::impulse::impulse_block(other, changed, channels, t, b, g).1[n * channels
            + c],
{
    let frames = block.len() as int / channels;
    assert(crate::dsp::impulse::channel_samples(block, c, channels)
        =~= crate::dsp::impulse::channel_samples(changed, c, channels));
    let i = n * channels + c;
    assert((n + 1) * channels <= frames * channels) by (nonlinear_arith)
        requires
            n + 1 <= frames,
            0 < channels,
    ;
    assert((n + 1) * channels == n * channels + channels) by (nonlinear_arith);
    assert(0 <= i) by (nonlinear_arith)
        requires
            i == n * channels + c,
            0 <= n,
            0 <= c,
            0 < channels,
    ;
    assert(frames * channels <= block.len()) by {
        vstd::arithmetic::div_mod::lemma_fundamental_div_mod(block.len() as int, channels);
        assert(frames * channels == channels * frames) by (nonlinear_arith);
        assert(0 <= block.len() as int % channels);
    }
    vstd::arithmetic::div_mod::lemma_fundamental_div_mod_converse(i, channels, n, c);
    let after = crate::dsp::impulse::lines_after(v, block, channels, t, b, g);
    let after_other = crate::dsp::impulse::lines_after(other, changed, channels, t, b, g);
    assert(after[c] == after_other[c]);
}

} // verus!
