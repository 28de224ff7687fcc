//! The settings of the effects: how what a user sets, and the sample rate, become the gains, delays
//! and filter speeds that the effects work with.

use vstd::prelude::*;
use crate::dsp::arith::{apply, larger_of, to_unit, Calc, HALF_BITS};
use crate::dsp::band::{Curve, Speeds};
use crate::dsp::bass::BassSettings;
use crate::dsp::saturation::shape;
use crate::dsp::surround::SpeakerSetup;
use crate::float_bits::{less_than, ONE_BITS, TWO_BITS};
use crate::types::{BassBoostState, CompanderState, RoomState};

verus! {

/// The bits of minus one.
pub const MINUS_ONE_BITS: u32 = 0xbf80_0000;

/// The bits of a full turn and of one backwards.
pub const TURN_BITS: u32 = 0x40c9_0fdb;

pub const BACK_TURN_BITS: u32 = 0xc0c9_0fdb;

/// The bits of 0.001: a millisecond in seconds.
pub const MILLI_BITS: u32 = 0x3a83_126f;

/// The bits of 20: that many dB are a factor of ten.
pub const TWENTY_BITS: u32 = 0x41a0_0000;

/// No count is larger than this.
pub const MOST: u32 = 0x7fff_ffff;

/// The whole number of a number, up to the largest count.
pub open spec fn counted(v: u32, g: spec_fn(Calc, u32, u32) -> u32) -> int {
    let n = g(Calc::Count, v, 0);
    if n > MOST {
        MOST as int
    } else {
        n as int
    }
}

fn count<F: Fn(Calc, u32, u32) -> u32>(v: u32, f: &F) -> (r: usize)
    requires
        crate::dsp::arith::callable(*f),
    ensures
        r <= MOST,
        forall|g: spec_fn(Calc, u32, u32) -> u32| #[trigger]
            crate::dsp::arith::computes(*f, g) ==> r == counted(v, g),
{
    let n: u32 = apply(f, Calc::Count, v, 0);
    if n > MOST {
        MOST as usize
    } else {
        n as usize
    }
}

/// A number of samples for a duration in seconds: rounded, and at least one.
pub open spec fn samples_in(
    seconds: u32,
    rate: u32,
    g: spec_fn(Calc, u32, u32) -> u32,
) -> int {
    counted(
        crate::dsp::arith::larger(g(Calc::Round, g(Calc::Mul, seconds, rate), 0), ONE_BITS),
        g,
    )
}

/// How many samples a duration in seconds has: rounded, and at least one.
pub fn delay_in_samples<F: Fn(Calc, u32, u32) -> u32>(seconds: u32, rate: u32, f: &F) -> (r: usize)
    requires
        crate::dsp::arith::callable(*f),
    ensures
        r <= MOST,
        forall|g: spec_fn(Calc, u32, u32) -> u32| #[trigger]
            crate::dsp::arith::computes(*f, g) ==> r == samples_in(seconds, rate, g),
{
    let exact: u32 = apply(f, Calc::Mul, seconds, rate);
    let rounded: u32 = apply(f, Calc::Round, exact, 0);
    count(larger_of(rounded, ONE_BITS), f)
}

/// The factor of a gain in dB: `10^(db / 20)`.
pub open spec fn factor_of(db: u32, g: spec_fn(Calc, u32, u32) -> u32) -> u32 {
    g(Calc::TenTo, g(Calc::Div, db, TWENTY_BITS), 0)
}

/// The factor of a gain in dB.
pub fn gain_factor<F: Fn(Calc, u32, u32) -> u32>(db: u32, f: &F) -> (r: u32)
    requires
        crate::dsp::arith::callable(*f),
    ensures
        forall|g: spec_fn(Calc, u32, u32) -> u32| #[trigger]
            crate::dsp::arith::computes(*f, g) ==> r == factor_of(db, g),
{
    let decades: u32 = apply(f, Calc::Div, db, TWENTY_BITS);
    apply(f, Calc::TenTo, decades, 0)
}

/// How much a low-pass filter keeps of its state: `exp(-2 pi hz / rate)`.
pub open spec fn kept_at(hz: u32, rate: u32, g: spec_fn(Calc, u32, u32) -> u32) -> u32 {
    g(Calc::Exp, g(Calc::Div, g(Calc::Mul, BACK_TURN_BITS, hz), rate), 0)
}

/// How much a low-pass filter keeps of its state.
pub fn filter_keep<F: Fn(Calc, u32, u32) -> u32>(hz: u32, rate: u32, f: &F) -> (r: u32)
    requires
        crate::dsp::arith::callable(*f),
    ensures
        forall|g: spec_fn(Calc, u32, u32) -> u32| #[trigger]
            crate::dsp::arith::computes(*f, g) ==> r == kept_at(hz, rate, g),
{
    let turns: u32 = apply(f, Calc::Mul, BACK_TURN_BITS, hz);
    let per_sample: u32 = apply(f, Calc::Div, turns, rate);
    apply(f, Calc::Exp, per_sample, 0)
}

/// How much is kept of a level that falls to a third in a time: `exp(-1 / (seconds * rate))`.
pub open spec fn kept_over(seconds: u32, rate: u32, g: spec_fn(Calc, u32, u32) -> u32) -> u32 {
    g(Calc::Exp, g(Calc::Div, MINUS_ONE_BITS, g(Calc::Mul, seconds, rate)), 0)
}

/// How much is kept of a level over one sample.
pub fn level_keep<F: Fn(Calc, u32, u32) -> u32>(seconds: u32, rate: u32, f: &F) -> (r: u32)
    requires
        crate::dsp::arith::callable(*f),
    ensures
        forall|g: spec_fn(Calc, u32, u32) -> u32| #[trigger]
            crate::dsp::arith::computes(*f, g) ==> r == kept_over(seconds, rate, g),
{
    let samples: u32 = apply(f, Calc::Mul, seconds, rate);
    let step: u32 = apply(f, Calc::Div, MINUS_ONE_BITS, samples);
    apply(f, Calc::Exp, step, 0)
}

/// How fast a level follows: `1 - exp(-1 / (seconds * rate))`.
pub open spec fn speed_over(seconds: u32, rate: u32, g: spec_fn(Calc, u32, u32) -> u32) -> u32 {
    g(Calc::Sub, ONE_BITS, kept_over(seconds, rate, g))
}

/// How fast a level follows.
pub fn level_speed<F: Fn(Calc, u32, u32) -> u32>(seconds: u32, rate: u32, f: &F) -> (r: u32)
    requires
        crate::dsp::arith::callable(*f),
    ensures
        forall|g: spec_fn(Calc, u32, u32) -> u32| #[trigger]
            crate::dsp::arith::computes(*f, g) ==> r == speed_over(seconds, rate, g),
{
    let kept: u32 = level_keep(seconds, rate, f);
    apply(f, Calc::Sub, ONE_BITS, kept)
}

/// The bits of 1000, and of the look-ahead and the release of the limiter in milliseconds.
pub const THOUSAND_BITS: u32 = 0x447a_0000;

pub const LIMITER_AHEAD_MS: u32 = 0x40a0_0000;

pub const LIMITER_RELEASE_MS: u32 = 0x42c8_0000;

/// The bits of 0.966: the ceiling of a new limiter.
pub const LIMITER_CEILING: u32 = 0x3f77_4bc7;

/// How far the limiter looks ahead, in frames, and how fast it releases.
pub fn limiter_timing<F: Fn(Calc, u32, u32) -> u32>(rate: u32, f: &F) -> (r: (usize, u32))
    requires
        crate::dsp::arith::callable(*f),
    ensures
        forall|g: spec_fn(Calc, u32, u32) -> u32| #[trigger]
            crate::dsp::arith::computes(*f, g) ==> r.0 == samples_in(
                g(Calc::Div, LIMITER_AHEAD_MS, THOUSAND_BITS),
                rate,
                g,
            ) && r.1 == speed_over(g(Calc::Div, LIMITER_RELEASE_MS, THOUSAND_BITS), rate, g),
{
    let ahead: u32 = apply(f, Calc::Div, LIMITER_AHEAD_MS, THOUSAND_BITS);
    let release: u32 = apply(f, Calc::Div, LIMITER_RELEASE_MS, THOUSAND_BITS);
    (delay_in_samples(ahead, rate, f), level_speed(release, rate, f))
}

/// The bits of the frequencies in Hz of the harmonics filter and of the filter that the adaptive
/// mode looks through, and of the times in milliseconds in which it rises and falls.
pub const HARMONIC_HZ: u32 = 0x4320_0000;

pub const WATCH_HZ: u32 = 0x42f0_0000;

pub const WATCH_ATTACK_MS: u32 = 0x4120_0000;

pub const WATCH_RELEASE_MS: u32 = 0x4316_0000;

/// The bits of the frequency in Hz and the quality of the bass shelf.
pub const SHELF_HZ: u32 = 0x42dc_0000;

pub const SHELF_Q: u32 = 0x3f34_fdf4;

/// The settings of the bass boost.
pub open spec fn bass_settings_of(
    state: BassBoostState,
    rate: u32,
    g: spec_fn(Calc, u32, u32) -> u32,
) -> BassSettings {
    BassSettings {
        enabled: state.enabled,
        harmonics: state.harmonics,
        adaptive: state.adaptive,
        low_keep: kept_at(HARMONIC_HZ, rate, g),
        watch_keep: kept_at(WATCH_HZ, rate, g),
        attack_keep: kept_over(g(Calc::Mul, WATCH_ATTACK_MS, MILLI_BITS), rate, g),
        release_keep: kept_over(g(Calc::Mul, WATCH_RELEASE_MS, MILLI_BITS), rate, g),
    }
}

/// The settings of the bass boost.
pub fn bass_settings<F: Fn(Calc, u32, u32) -> u32>(state: &BassBoostState, rate: u32, f: &F) -> (r:
    BassSettings)
    requires
        crate::dsp::arith::callable(*f),
    ensures
        forall|g: spec_fn(Calc, u32, u32) -> u32| #[trigger]
            crate::dsp::arith::computes(*f, g) ==> r == bass_settings_of(*state, rate, g),
{
    let attack: u32 = apply(f, Calc::Mul, WATCH_ATTACK_MS, MILLI_BITS);
    let release: u32 = apply(f, Calc::Mul, WATCH_RELEASE_MS, MILLI_BITS);
    BassSettings {
        enabled: state.enabled,
        harmonics: state.harmonics,
        adaptive: state.adaptive,
        low_keep: filter_keep(HARMONIC_HZ, rate, f),
        watch_keep: filter_keep(WATCH_HZ, rate, f),
        attack_keep: level_keep(attack, rate, f),
        release_keep: level_keep(release, rate, f),
    }
}

/// The bits of the delay in seconds between the ears, and of the filters of both modes and the
/// notch in Hz, with its gain and quality.
pub const EAR_DELAY_S: u32 = 0x399d_4952;

pub const CROSSFEED_HZ: u32 = 0x4454_8000;

pub const HRTF_HZ: u32 = 0x4489_8000;

pub const NOTCH_HZ: u32 = 0x45ea_6000;

pub const NOTCH_DB: u32 = 0xc080_0000;

pub const NOTCH_Q: u32 = 0x4000_0000;

/// The bits of the radius of a head in meters, and of the speed of sound.
pub const HEAD_RADIUS: u32 = 0x3db3_3333;

pub const SOUND_SPEED: u32 = 0x43ab_8000;

/// The bits of a degree in radians.
pub const DEGREE_BITS: u32 = 0x3c8e_fa35;

/// The bits of 0.3 and 0.7: the level at the far ear, of a speaker behind and what is added in front.
pub const FAR_LEAST: u32 = 0x3e99_999a;

pub const FAR_MORE: u32 = 0x3f33_3333;

/// The bits of 700 and 1300: the same of the frequency in Hz of the shadow of the head.
pub const SHADOW_LEAST: u32 = 0x442f_0000;

pub const SHADOW_MORE: u32 = 0x44a2_8000;

/// The delay of the rear speakers in seconds, and the frequency in Hz of the subwoofer.
pub const REAR_DELAY_S: u32 = 0x3bc4_9ba6;

pub const LFE_HZ: u32 = 0x42f0_0000;

/// A loudspeaker at an angle in degrees, to either side. The delay to the far ear follows the
/// way around a sphere: `(radius / speed) * (angle + sin(angle))`.
pub open spec fn speaker_of(
    degrees: u32,
    feed_gain: u32,
    rate: u32,
    g: spec_fn(Calc, u32, u32) -> u32,
) -> SpeakerSetup {
    let angle = g(Calc::Mul, degrees, DEGREE_BITS);
    let late = g(
        Calc::Mul,
        g(Calc::Div, HEAD_RADIUS, SOUND_SPEED),
        g(Calc::Add, angle, g(Calc::Sin, angle, 0)),
    );
    let front = g(Calc::Mul, g(Calc::Add, ONE_BITS, g(Calc::Cos, angle, 0)), HALF_BITS);
    SpeakerSetup {
        feed_gain,
        delay: samples_in(late, rate, g) as usize,
        keep: kept_at(g(Calc::Add, SHADOW_LEAST, g(Calc::Mul, SHADOW_MORE, front)), rate, g),
        far_gain: g(Calc::Add, FAR_LEAST, g(Calc::Mul, FAR_MORE, front)),
    }
}

fn speaker<F: Fn(Calc, u32, u32) -> u32>(degrees: u32, feed_gain: u32, rate: u32, f: &F) -> (r:
    SpeakerSetup)
    requires
        crate::dsp::arith::callable(*f),
    ensures
        r.delay <= MOST,
        forall|g: spec_fn(Calc, u32, u32) -> u32| #[trigger]
            crate::dsp::arith::computes(*f, g) ==> r == speaker_of(degrees, feed_gain, rate, g),
{
    let angle: u32 = apply(f, Calc::Mul, degrees, DEGREE_BITS);
    let per_angle: u32 = apply(f, Calc::Div, HEAD_RADIUS, SOUND_SPEED);
    let sin: u32 = apply(f, Calc::Sin, angle, 0);
    let way: u32 = apply(f, Calc::Add, angle, sin);
    let late: u32 = apply(f, Calc::Mul, per_angle, way);
    let cos: u32 = apply(f, Calc::Cos, angle, 0);
    let both: u32 = apply(f, Calc::Add, ONE_BITS, cos);
    let front: u32 = apply(f, Calc::Mul, both, HALF_BITS);
    let shadow: u32 = apply(f, Calc::Mul, SHADOW_MORE, front);
    let shadow_hz: u32 = apply(f, Calc::Add, SHADOW_LEAST, shadow);
    let far: u32 = apply(f, Calc::Mul, FAR_MORE, front);
    SpeakerSetup {
        feed_gain,
        delay: delay_in_samples(late, rate, f),
        keep: filter_keep(shadow_hz, rate, f),
        far_gain: apply(f, Calc::Add, FAR_LEAST, far),
    }
}

/// The bits of the angles in degrees and of the levels of the front, side and rear speakers.
pub const FRONT_DEGREES: u32 = 0x41f0_0000;

pub const SIDE_DEGREES: u32 = 0x42b4_0000;

pub const REAR_DEGREES: u32 = 0x4307_0000;

pub const SIDE_LEVEL: u32 = 0x3f19_999a;

pub const REAR_LEVEL: u32 = 0x3f0c_cccd;

/// The six loudspeakers, left and right in front, at the sides and behind.
pub open spec fn speakers_of(rate: u32, g: spec_fn(Calc, u32, u32) -> u32) -> Seq<SpeakerSetup> {
    let front = speaker_of(FRONT_DEGREES, ONE_BITS, rate, g);
    let side = speaker_of(SIDE_DEGREES, SIDE_LEVEL, rate, g);
    let rear = speaker_of(REAR_DEGREES, REAR_LEVEL, rate, g);
    seq![front, front, side, side, rear, rear]
}

/// The six loudspeakers of the surround stage.
pub fn speaker_setups<F: Fn(Calc, u32, u32) -> u32>(rate: u32, f: &F) -> (r: Vec<SpeakerSetup>)
    requires
        crate::dsp::arith::callable(*f),
    ensures
        r@.len() == 6,
        forall|i: int| 0 <= i < 6 ==> (#[trigger] r@[i]).delay <= MOST,
        forall|g: spec_fn(Calc, u32, u32) -> u32| #[trigger]
            crate::dsp::arith::computes(*f, g) ==> r@ == speakers_of(rate, g),
{
    let front: SpeakerSetup = speaker(FRONT_DEGREES, ONE_BITS, rate, f);
    let side: SpeakerSetup = speaker(SIDE_DEGREES, SIDE_LEVEL, rate, f);
    let rear: SpeakerSetup = speaker(REAR_DEGREES, REAR_LEVEL, rate, f);
    let r: Vec<SpeakerSetup> = vec![front, front, side, side, rear, rear];
    assert(r@ =~= seq![front, front, side, side, rear, rear]);
    r
}

/// The two sides of both speakers of a pair hear the same, the other way round.
pub proof fn law_speakers_come_in_pairs(
    pair: int,
    rate: u32,
    g: spec_fn(Calc, u32, u32) -> u32,
)
    requires
        0 <= pair < 3,
    ensures
        speakers_of(rate, g).len() == 6,
        speakers_of(rate, g)[2 * pair] == speakers_of(rate, g)[2 * pair + 1],
{
}

/// The gain curve of the compander: ratios are at least one, and the knee is not negative.
pub open spec fn curve_of(state: CompanderState) -> Curve {
    Curve {
        threshold: state.threshold_db,
        ratio: crate::dsp::arith::larger(state.ratio, ONE_BITS),
        knee: crate::dsp::arith::larger(state.knee_db, 0),
        gate: state.gate_db,
        expander_ratio: crate::dsp::arith::larger(state.expander_ratio, ONE_BITS),
    }
}

/// The gain curve of the compander.
pub fn compander_curve(state: &CompanderState) -> (r: Curve)
    ensures
        r == curve_of(*state),
{
    Curve {
        threshold: state.threshold_db,
        ratio: larger_of(state.ratio, ONE_BITS),
        knee: larger_of(state.knee_db, 0),
        gate: state.gate_db,
        expander_ratio: larger_of(state.expander_ratio, ONE_BITS),
    }
}

/// The bits of 0.002: the time in seconds over which gains glide.
pub const DECLICK_S: u32 = 0x3b03_126f;

/// The speeds of the compander; no time is shorter than a millisecond.
pub open spec fn speeds_of(
    state: CompanderState,
    rate: u32,
    g: spec_fn(Calc, u32, u32) -> u32,
) -> Speeds {
    let attack = crate::dsp::arith::larger(g(Calc::Mul, state.attack_ms, MILLI_BITS), MILLI_BITS);
    let release = crate::dsp::arith::larger(g(Calc::Mul, state.release_ms, MILLI_BITS), MILLI_BITS);
    Speeds {
        attack: speed_over(attack, rate, g),
        release: speed_over(release, rate, g),
        declick: speed_over(DECLICK_S, rate, g),
    }
}

/// The speeds of the compander.
pub fn compander_speeds<F: Fn(Calc, u32, u32) -> u32>(
    state: &CompanderState,
    rate: u32,
    f: &F,
) -> (r: Speeds)
    requires
        crate::dsp::arith::callable(*f),
    ensures
        forall|g: spec_fn(Calc, u32, u32) -> u32| #[trigger]
            crate::dsp::arith::computes(*f, g) ==> r == speeds_of(*state, rate, g),
{
    let attack: u32 = apply(f, Calc::Mul, state.attack_ms, MILLI_BITS);
    let release: u32 = apply(f, Calc::Mul, state.release_ms, MILLI_BITS);
    Speeds {
        attack: level_speed(larger_of(attack, MILLI_BITS), rate, f),
        release: level_speed(larger_of(release, MILLI_BITS), rate, f),
        declick: level_speed(DECLICK_S, rate, f),
    }
}

/// The bits of 3: how far the compander looks ahead, in milliseconds.
pub const COMPANDER_AHEAD_MS: u32 = 0x4040_0000;

/// How many samples the compander looks ahead.
pub fn lookahead_samples<F: Fn(Calc, u32, u32) -> u32>(rate: u32, f: &F) -> (r: usize)
    requires
        crate::dsp::arith::callable(*f),
    ensures
        r <= MOST,
        forall|g: spec_fn(Calc, u32, u32) -> u32| #[trigger]
            crate::dsp::arith::computes(*f, g) ==> r == counted(
                g(
                    Calc::Round,
                    g(Calc::Mul, g(Calc::Mul, COMPANDER_AHEAD_MS, MILLI_BITS), rate),
                    0,
                ),
                g,
            ),
{
    let seconds: u32 = apply(f, Calc::Mul, COMPANDER_AHEAD_MS, MILLI_BITS);
    let exact: u32 = apply(f, Calc::Mul, seconds, rate);
    let rounded: u32 = apply(f, Calc::Round, exact, 0);
    count(rounded, f)
}

/// The bits of the natural logarithm of a dB.
pub const NEPERS: u32 = 0x3deb_c8e3;

/// The factor of a gain in dB, as the compander takes it: `exp(db * ln(10) / 20)`.
pub fn db_to_lin<F: Fn(Calc, u32, u32) -> u32>(db: u32, f: &F) -> (r: u32)
    requires
        crate::dsp::arith::callable(*f),
    ensures
        forall|g: spec_fn(Calc, u32, u32) -> u32| #[trigger]
            crate::dsp::arith::computes(*f, g) ==> r == g(Calc::Exp, g(Calc::Mul, db, NEPERS), 0),
{
    let nepers: u32 = apply(f, Calc::Mul, db, NEPERS);
    apply(f, Calc::Exp, nepers, 0)
}

/// The bits of the centers in Hz of the bands of the compander.
pub open spec fn compander_centers() -> Seq<u32> {
    seq![
        0x41f8_0000u32, 0x4278_0000, 0x42fa_0000, 0x437a_0000, 0x43fa_0000, 0x447a_0000,
        0x44fa_0000, 0x457a_0000, 0x45fa_0000, 0x467a_0000,
    ]
}

/// The bits of the quality of the filters between them.
pub const BUTTERWORTH_Q: u32 = 0x3f35_04f3;

/// The frequencies between the bands of the compander: the geometric mean of neighbours.
pub fn crossover_freqs<F: Fn(Calc, u32, u32) -> u32>(f: &F) -> (r: Vec<u32>)
    requires
        crate::dsp::arith::callable(*f),
    ensures
        r@.len() == 9,
        forall|g: spec_fn(Calc, u32, u32) -> u32, i: int|
            0 <= i < 9 && #[trigger] crate::dsp::arith::computes(*f, g) ==> #[trigger] r@[i] == g(
                Calc::Sqrt,
                g(Calc::Mul, compander_centers()[i], compander_centers()[i + 1]),
                0,
            ),
{
    let centers: [u32; 10] = [
        0x41f8_0000, 0x4278_0000, 0x42fa_0000, 0x437a_0000, 0x43fa_0000, 0x447a_0000, 0x44fa_0000,
        0x457a_0000, 0x45fa_0000, 0x467a_0000,
    ];
    assert(centers@ =~= compander_centers());
    let mut out: Vec<u32> = Vec::new();
    while out.len() < 9
        invariant
            out@.len() <= 9,
            centers@ == compander_centers(),
            crate::dsp::arith::callable(*f),
            forall|g: spec_fn(Calc, u32, u32) -> u32, i: int|
                0 <= i < out@.len() && #[trigger] crate::dsp::arith::computes(*f, g)
                    ==> #[trigger] out@[i] == g(
                    Calc::Sqrt,
                    g(Calc::Mul, compander_centers()[i], compander_centers()[i + 1]),
                    0,
                ),
        decreases 9 - out@.len(),
    {
        let i: usize = out.len();
        let product: u32 = apply(f, Calc::Mul, centers[i], centers[i + 1]);
        let mean: u32 = apply(f, Calc::Sqrt, product, 0);
        out.push(mean);
    }
    out
}

/// The bits of 9, of 256 and of 1e-6.
pub const NINE_BITS: u32 = 0x4110_0000;

pub const CYCLE_STEPS: u32 = 256;

pub const CYCLE_BITS: u32 = 0x4380_0000;

pub const LEAST_RMS: u32 = 0x3586_37bd;

/// The drive that a setting from zero to one stands for: from one to ten.
pub open spec fn drive_of(setting: u32, g: spec_fn(Calc, u32, u32) -> u32) -> u32 {
    g(Calc::Add, ONE_BITS, g(Calc::Mul, crate::dsp::arith::unit(setting), NINE_BITS))
}

/// A sample of a sine of half the full level, shaped.
pub open spec fn shaped_sine(i: u32, drive: u32, g: spec_fn(Calc, u32, u32) -> u32) -> u32 {
    let turn = g(Calc::Div, g(Calc::Mul, TURN_BITS, g(Calc::Whole, i, 0)), CYCLE_BITS);
    crate::dsp::saturation::bent(g(Calc::Mul, HALF_BITS, g(Calc::Sin, turn, 0)), drive, g)
}

/// The sum of the squares of the first `n` samples of that sine.
pub open spec fn square_sum(n: nat, drive: u32, g: spec_fn(Calc, u32, u32) -> u32) -> u32
    decreases n,
{
    if n == 0 {
        0
    } else {
        let s = shaped_sine((n - 1) as u32, drive, g);
        g(Calc::Add, square_sum((n - 1) as nat, drive, g), g(Calc::Mul, s, s))
    }
}

/// The gain behind the saturation that keeps a sine of half the full level as loud as it was.
pub open spec fn makeup_of(drive: u32, g: spec_fn(Calc, u32, u32) -> u32) -> u32 {
    let rms = g(Calc::Sqrt, g(Calc::Div, square_sum(256, drive, g), CYCLE_BITS), 0);
    g(
        Calc::Div,
        g(Calc::Div, HALF_BITS, g(Calc::Sqrt, TWO_BITS, 0)),
        crate::dsp::arith::larger(rms, LEAST_RMS),
    )
}

/// The drive of the saturation for its setting, and the gain that makes up for it.
pub fn compute_drive_makeup<F: Fn(Calc, u32, u32) -> u32>(drive_raw: u32, f: &F) -> (r: (u32, u32))
    requires
        crate::dsp::arith::callable(*f),
    ensures
        forall|g: spec_fn(Calc, u32, u32) -> u32| #[trigger]
            crate::dsp::arith::computes(*f, g) ==> r.0 == drive_of(drive_raw, g) && r.1
                == makeup_of(drive_of(drive_raw, g), g),
{
    let more: u32 = apply(f, Calc::Mul, to_unit(drive_raw), NINE_BITS);
    let drive: u32 = apply(f, Calc::Add, ONE_BITS, more);
    let mut sum: u32 = 0;
    let mut i: u32 = 0;
    while i < CYCLE_STEPS
        invariant
            i <= CYCLE_STEPS,
            crate::dsp::arith::callable(*f),
            forall|g: spec_fn(Calc, u32, u32) -> u32| #[trigger]
                crate::dsp::arith::computes(*f, g) ==> sum == square_sum(i as nat, drive, g),
        decreases CYCLE_STEPS - i,
    {
        let place: u32 = apply(f, Calc::Whole, i, 0);
        let way: u32 = apply(f, Calc::Mul, TURN_BITS, place);
        let turn: u32 = apply(f, Calc::Div, way, CYCLE_BITS);
        let sin: u32 = apply(f, Calc::Sin, turn, 0);
        let x: u32 = apply(f, Calc::Mul, HALF_BITS, sin);
        let s: u32 = shape(x, drive, f);
        let square: u32 = apply(f, Calc::Mul, s, s);
        sum = apply(f, Calc::Add, sum, square);
        i += 1;
    }
    let mean: u32 = apply(f, Calc::Div, sum, CYCLE_BITS);
    let rms: u32 = apply(f, Calc::Sqrt, mean, 0);
    let root: u32 = apply(f, Calc::Sqrt, TWO_BITS, 0);
    let wanted: u32 = apply(f, Calc::Div, HALF_BITS, root);
    (drive, apply(f, Calc::Div, wanted, larger_of(rms, LEAST_RMS)))
}

/// The bits of the sample rate for which the lengths of the reverbs are given.
pub const REFERENCE_RATE: u32 = 0x472c_4400;

/// The bits of a quarter.
pub const QUARTER_BITS: u32 = 0x3e80_0000;

/// The lengths of the combs and diffusers of the room, on the left and on the right.
pub open spec fn room_lengths(left: bool) -> (Seq<u32>, Seq<u32>) {
    if left {
        (
            seq![1116u32, 1188, 1277, 1356, 1422, 1491, 1557, 1617],
            seq![556u32, 441, 341, 225],
        )
    } else {
        (
            seq![1139u32, 1211, 1300, 1379, 1445, 1514, 1580, 1640],
            seq![579u32, 464, 364, 248],
        )
    }
}

fn lengths_of_room(left: bool) -> (r: (Vec<u32>, Vec<u32>))
    ensures
        (r.0@, r.1@) == room_lengths(left),
{
    if left {
        let combs: Vec<u32> = vec![1116, 1188, 1277, 1356, 1422, 1491, 1557, 1617];
        let diffusers: Vec<u32> = vec![556, 441, 341, 225];
        assert(combs@ =~= room_lengths(true).0);
        assert(diffusers@ =~= room_lengths(true).1);
        (combs, diffusers)
    } else {
        let combs: Vec<u32> = vec![1139, 1211, 1300, 1379, 1445, 1514, 1580, 1640];
        let diffusers: Vec<u32> = vec![579, 464, 364, 248];
        assert(combs@ =~= room_lengths(false).0);
        assert(diffusers@ =~= room_lengths(false).1);
        (combs, diffusers)
    }
}

/// The left and the right side of the room never have the same lengths.
pub proof fn law_the_sides_of_a_room_differ(i: int, j: int)
    requires
        0 <= i < 8,
        0 <= j < 8,
    ensures
        room_lengths(true).0[i] != room_lengths(false).0[j],
        i < 4 && j < 4 ==> room_lengths(true).1[i] != room_lengths(false).1[j],
{
}

/// A length at another sample rate, times a factor, without its fraction.
pub open spec fn scaled_length(
    length: u32,
    rate: u32,
    factor: u32,
    g: spec_fn(Calc, u32, u32) -> u32,
) -> int {
    let scale = g(Calc::Div, rate, REFERENCE_RATE);
    counted(g(Calc::Mul, g(Calc::Mul, g(Calc::Whole, length, 0), scale), factor), g)
}

/// The sizes of the memory of one side of the room.
#[derive(Debug, PartialEq, Eq)]
pub struct RoomPlan {
    pub combs: Vec<usize>,
    pub diffusers: Vec<usize>,
}

/// At least one.
pub open spec fn one_or_more(n: int) -> int {
    if n < 1 {
        1
    } else {
        n
    }
}

/// How large the memory of one side of the room is: the combs can hold twice their length, and
/// sixteen samples more.
pub fn room_plan<F: Fn(Calc, u32, u32) -> u32>(left: bool, rate: u32, f: &F) -> (r: RoomPlan)
    requires
        crate::dsp::arith::callable(*f),
    ensures
        r.combs@.len() == 8,
        r.diffusers@.len() == 4,
        forall|g: spec_fn(Calc, u32, u32) -> u32, i: int|
            0 <= i < 8 && #[trigger] crate::dsp::arith::computes(*f, g) ==> #[trigger] r.combs@[i]
                == scaled_length(room_lengths(left).0[i], rate, TWO_BITS, g) + 16,
        forall|g: spec_fn(Calc, u32, u32) -> u32, i: int|
            0 <= i < 4 && #[trigger] crate::dsp::arith::computes(*f, g)
                ==> #[trigger] r.diffusers@[i] == one_or_more(
                counted(
                    g(
                        Calc::Mul,
                        g(Calc::Whole, room_lengths(left).1[i], 0),
                        g(Calc::Div, rate, REFERENCE_RATE),
                    ),
                    g,
                ),
            ),
{
    let (lengths, diffusing): (Vec<u32>, Vec<u32>) = lengths_of_room(left);
    let scale: u32 = apply(f, Calc::Div, rate, REFERENCE_RATE);
    let mut combs: Vec<usize> = Vec::new();
    while combs.len() < 8
        invariant
            combs@.len() <= 8,
            lengths@ == room_lengths(left).0,
            crate::dsp::arith::callable(*f),
            forall|g: spec_fn(Calc, u32, u32) -> u32| #[trigger]
                crate::dsp::arith::computes(*f, g) ==> scale == g(Calc::Div, rate, REFERENCE_RATE),
            forall|g: spec_fn(Calc, u32, u32) -> u32, i: int|
                0 <= i < combs@.len() && #[trigger] crate::dsp::arith::computes(*f, g)
                    ==> #[trigger] combs@[i] == scaled_length(
                    room_lengths(left).0[i],
                    rate,
                    TWO_BITS,
                    g,
                ) + 16,
        decreases 8 - combs@.len(),
    {
        let whole: u32 = apply(f, Calc::Whole, lengths[combs.len()], 0);
        let scaled: u32 = apply(f, Calc::Mul, whole, scale);
        let twice: u32 = apply(f, Calc::Mul, scaled, TWO_BITS);
        combs.push(count(twice, f) + 16);
    }
    let mut diffusers: Vec<usize> = Vec::new();
    while diffusers.len() < 4
        invariant
            diffusers@.len() <= 4,
            diffusing@ == room_lengths(left).1,
            crate::dsp::arith::callable(*f),
            forall|g: spec_fn(Calc, u32, u32) -> u32| #[trigger]
                crate::dsp::arith::computes(*f, g) ==> scale == g(Calc::Div, rate, REFERENCE_RATE),
            forall|g: spec_fn(Calc, u32, u32) -> u32, i: int|
                0 <= i < diffusers@.len() && #[trigger] crate::dsp::arith::computes(*f, g)
                    ==> #[trigger] diffusers@[i] == one_or_more(
                    counted(
                        g(
                            Calc::Mul,
                            g(Calc::Whole, room_lengths(left).1[i], 0),
                            g(Calc::Div, rate, REFERENCE_RATE),
                        ),
                        g,
                    ),
                ),
        decreases 4 - diffusers@.len(),
    {
        let whole: u32 = apply(f, Calc::Whole, diffusing[diffusers.len()], 0);
        let scaled: u32 = apply(f, Calc::Mul, whole, scale);
        let n: usize = count(scaled, f);
        diffusers.push(
            if n < 1 {
                1
            } else {
                n
            },
        );
    }
    RoomPlan { combs, diffusers }
}

/// How many samples the pre-delay of a room can hold: a quarter of a second, and sixteen more.
pub fn pre_delay_room<F: Fn(Calc, u32, u32) -> u32>(rate: u32, f: &F) -> (r: usize)
    requires
        crate::dsp::arith::callable(*f),
    ensures
        forall|g: spec_fn(Calc, u32, u32) -> u32| #[trigger]
            crate::dsp::arith::computes(*f, g) ==> r == counted(g(Calc::Mul, rate, QUARTER_BITS), g)
                + 16,
{
    let quarter: u32 = apply(f, Calc::Mul, rate, QUARTER_BITS);
    count(quarter, f) + 16
}

/// The bits of the numbers in the tuning of the room.
pub const SIZE_LEAST: u32 = 0x3f00_0000;

pub const SIZE_MORE: u32 = 0x3fc0_0000;

pub const DECAY_SCALE: u32 = 0x3e8f_5c29;

pub const DECAY_LEAST: u32 = 0x3f33_3333;

pub const DECAY_MOST: u32 = 0x3f7a_e148;

pub const DAMP_SCALE: u32 = 0x3ecc_cccd;

pub const DIFFUSION_LEAST: u32 = 0x3e99_999a;

pub const DIFFUSION_SCALE: u32 = 0x3ecc_cccd;

/// The bits of 200: the longest pre-delay in milliseconds.
pub const LONGEST_PRE_DELAY: u32 = 0x4348_0000;

/// How a room sounds.
#[derive(Debug, PartialEq, Eq)]
pub struct RoomTuning {
    pub left: Vec<usize>,
    pub right: Vec<usize>,
    pub feedback: u32,
    pub damp: u32,
    pub rest: u32,
    pub diffusion: u32,
    pub pre_delay: usize,
}

/// A value cut to the range from zero to another; an undefined one stays.
pub open spec fn from_zero(v: u32, most: u32) -> u32 {
    if crate::float_bits::less(v, 0) {
        0
    } else if crate::float_bits::less(most, v) {
        most
    } else {
        v
    }
}

/// Cuts a value to the range from zero to another; an undefined one stays.
pub fn cut_from_zero(v: u32, most: u32) -> (r: u32)
    ensures
        r == from_zero(v, most),
{
    if less_than(v, 0) {
        0
    } else if less_than(most, v) {
        most
    } else {
        v
    }
}

/// A comb in a room of some size.
pub open spec fn comb_delay(
    left: bool,
    i: int,
    size: u32,
    rate: u32,
    g: spec_fn(Calc, u32, u32) -> u32,
) -> int {
    let factor = g(
        Calc::Add,
        SIZE_LEAST,
        g(Calc::Mul, SIZE_MORE, crate::dsp::arith::unit(size)),
    );
    one_or_more(scaled_length(room_lengths(left).0[i], rate, factor, g))
}

fn comb_delays<F: Fn(Calc, u32, u32) -> u32>(left: bool, size: u32, rate: u32, f: &F) -> (r: Vec<
    usize,
>)
    requires
        crate::dsp::arith::callable(*f),
    ensures
        r@.len() == 8,
        forall|g: spec_fn(Calc, u32, u32) -> u32, i: int|
            0 <= i < 8 && #[trigger] crate::dsp::arith::computes(*f, g) ==> #[trigger] r@[i]
                == comb_delay(left, i, size, rate, g),
{
    let (lengths, _): (Vec<u32>, Vec<u32>) = lengths_of_room(left);
    let scale: u32 = apply(f, Calc::Div, rate, REFERENCE_RATE);
    let more: u32 = apply(f, Calc::Mul, SIZE_MORE, to_unit(size));
    let factor: u32 = apply(f, Calc::Add, SIZE_LEAST, more);
    let mut out: Vec<usize> = Vec::new();
    while out.len() < 8
        invariant
            out@.len() <= 8,
            lengths@ == room_lengths(left).0,
            crate::dsp::arith::callable(*f),
            forall|g: spec_fn(Calc, u32, u32) -> u32| #[trigger]
                crate::dsp::arith::computes(*f, g) ==> scale == g(Calc::Div, rate, REFERENCE_RATE)
                    && factor == g(
                    Calc::Add,
                    SIZE_LEAST,
                    g(Calc::Mul, SIZE_MORE, crate::dsp::arith::unit(size)),
                ),
            forall|g: spec_fn(Calc, u32, u32) -> u32, i: int|
                0 <= i < out@.len() && #[trigger] crate::dsp::arith::computes(*f, g)
                    ==> #[trigger] out@[i] == comb_delay(left, i, size, rate, g),
        decreases 8 - out@.len(),
    {
        let whole: u32 = apply(f, Calc::Whole, lengths[out.len()], 0);
        let scaled: u32 = apply(f, Calc::Mul, whole, scale);
        let sized: u32 = apply(f, Calc::Mul, scaled, factor);
        let n: usize = count(sized, f);
        out.push(
            if n < 1 {
                1
            } else {
                n
            },
        );
    }
    out
}

/// The tuning of a room: its size scales the combs, its decay their feedback.
pub fn room_tuning<F: Fn(Calc, u32, u32) -> u32>(state: &RoomState, rate: u32, f: &F) -> (r:
    RoomTuning)
    requires
        crate::dsp::arith::callable(*f),
    ensures
        r.left@.len() == 8,
        r.right@.len() == 8,
        forall|g: spec_fn(Calc, u32, u32) -> u32, i: int|
            0 <= i < 8 && #[trigger] crate::dsp::arith::computes(*f, g) ==> #[trigger] r.left@[i]
                == comb_delay(true, i, state.room_size, rate, g),
        forall|g: spec_fn(Calc, u32, u32) -> u32, i: int|
            0 <= i < 8 && #[trigger] crate::dsp::arith::computes(*f, g) ==> #[trigger] r.right@[i]
                == comb_delay(false, i, state.room_size, rate, g),
        forall|g: spec_fn(Calc, u32, u32) -> u32| #[trigger]
            crate::dsp::arith::computes(*f, g) ==> {
                let decay = crate::dsp::arith::unit(state.decay);
                let spread = crate::dsp::arith::unit(state.diffusion);
                let late = from_zero(state.pre_delay, LONGEST_PRE_DELAY);
                &&& r.feedback == from_zero(
                    g(Calc::Add, g(Calc::Mul, decay, DECAY_SCALE), DECAY_LEAST),
                    DECAY_MOST,
                )
                &&& r.damp == g(Calc::Mul, crate::dsp::arith::unit(state.damping), DAMP_SCALE)
                &&& r.rest == g(Calc::Sub, ONE_BITS, r.damp)
                &&& r.diffusion == g(
                    Calc::Add,
                    DIFFUSION_LEAST,
                    g(Calc::Mul, spread, DIFFUSION_SCALE),
                )
                &&& r.pre_delay == counted(
                    g(Calc::Mul, g(Calc::Mul, late, MILLI_BITS), rate),
                    g,
                )
            },
{
    let decay: u32 = apply(f, Calc::Mul, to_unit(state.decay), DECAY_SCALE);
    let feedback: u32 = apply(f, Calc::Add, decay, DECAY_LEAST);
    let damp: u32 = apply(f, Calc::Mul, to_unit(state.damping), DAMP_SCALE);
    let spread: u32 = apply(f, Calc::Mul, to_unit(state.diffusion), DIFFUSION_SCALE);
    let late: u32 = apply(
        f,
        Calc::Mul,
        cut_from_zero(state.pre_delay, LONGEST_PRE_DELAY),
        MILLI_BITS,
    );
    let samples: u32 = apply(f, Calc::Mul, late, rate);
    RoomTuning {
        left: comb_delays(true, state.room_size, rate, f),
        right: comb_delays(false, state.room_size, rate, f),
        feedback: cut_from_zero(feedback, DECAY_MOST),
        damp,
        rest: apply(f, Calc::Sub, ONE_BITS, damp),
        diffusion: apply(f, Calc::Add, DIFFUSION_LEAST, spread),
        pre_delay: count(samples, f),
    }
}

/// The lengths of the combs and diffusers of the small reverb, and by how much its right side is
/// longer.
pub open spec fn reverb_lengths() -> (Seq<u32>, Seq<u32>, u32) {
    (seq![1116u32, 1188, 1277, 1356], seq![556u32, 441], 23u32)
}

/// A length at another sample rate: rounded, and at least one.
pub open spec fn rounded_length(
    length: u32,
    rate: u32,
    g: spec_fn(Calc, u32, u32) -> u32,
) -> int {
    let scaled = g(Calc::Div, g(Calc::Mul, g(Calc::Whole, length, 0), rate), REFERENCE_RATE);
    counted(crate::dsp::arith::larger(g(Calc::Round, scaled, 0), ONE_BITS), g)
}

fn round_length<F: Fn(Calc, u32, u32) -> u32>(length: u32, rate: u32, f: &F) -> (r: usize)
    requires
        crate::dsp::arith::callable(*f),
    ensures
        r <= MOST,
        forall|g: spec_fn(Calc, u32, u32) -> u32| #[trigger]
            crate::dsp::arith::computes(*f, g) ==> r == rounded_length(length, rate, g),
{
    let whole: u32 = apply(f, Calc::Whole, length, 0);
    let samples: u32 = apply(f, Calc::Mul, whole, rate);
    let scaled: u32 = apply(f, Calc::Div, samples, REFERENCE_RATE);
    let rounded: u32 = apply(f, Calc::Round, scaled, 0);
    count(larger_of(rounded, ONE_BITS), f)
}

/// By how much a side of the small reverb is longer.
pub open spec fn reverb_spread(left: bool, rate: u32, g: spec_fn(Calc, u32, u32) -> u32) -> int {
    if left {
        0
    } else {
        rounded_length(reverb_lengths().2, rate, g)
    }
}

/// How long the lines of one side of the small reverb are.
pub fn reverb_plan<F: Fn(Calc, u32, u32) -> u32>(left: bool, rate: u32, f: &F) -> (r: RoomPlan)
    requires
        crate::dsp::arith::callable(*f),
    ensures
        r.combs@.len() == 4,
        r.diffusers@.len() == 2,
        forall|g: spec_fn(Calc, u32, u32) -> u32, i: int|
            0 <= i < 4 && #[trigger] crate::dsp::arith::computes(*f, g) ==> #[trigger] r.combs@[i]
                == rounded_length(reverb_lengths().0[i], rate, g) + reverb_spread(left, rate, g),
        forall|g: spec_fn(Calc, u32, u32) -> u32, i: int|
            0 <= i < 2 && #[trigger] crate::dsp::arith::computes(*f, g)
                ==> #[trigger] r.diffusers@[i] == rounded_length(reverb_lengths().1[i], rate, g)
                + reverb_spread(left, rate, g),
{
    let spread: usize = if left {
        0
    } else {
        round_length(23, rate, f)
    };
    let mut combs: Vec<usize> = Vec::new();
    combs.push(round_length(1116, rate, f) + spread);
    combs.push(round_length(1188, rate, f) + spread);
    combs.push(round_length(1277, rate, f) + spread);
    combs.push(round_length(1356, rate, f) + spread);
    let mut diffusers: Vec<usize> = Vec::new();
    diffusers.push(round_length(556, rate, f) + spread);
    diffusers.push(round_length(441, rate, f) + spread);
    RoomPlan { combs, diffusers }
}

} // verus!
