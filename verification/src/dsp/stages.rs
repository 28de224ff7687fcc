//! The stages in a format and with the settings of the engine: what a sample rate makes of their
//! filters and delays, and which settings have to change before a stage is tuned again.
//!
//! The arithmetic is handed in, in single and in double precision.

use vstd::prelude::*;
use crate::dsp::arith::{apply, to_unit, Calc};
use crate::dsp::band::BandView;
use crate::dsp::bands::MAX_BANDS;
use crate::dsp::bass::{BassBoost, Gain};
use crate::dsp::biquad::{Biquad, Coeffs};
use crate::dsp::compander::must_apply;
use crate::dsp::design::{
    correction_filters, graphic_filters, oversampling_taps, FOUR_WIDE, LEAST_RATE,
};
use crate::dsp::equalizer::{FilterView, GraphicEq, HeadphoneCorrection, EQ_BANDS};
use crate::dsp::limiter::{Limiter, LimiterView};
use crate::dsp::multiband::{Compander, CompanderView};
use crate::dsp::oversample::{OversampleView, Oversampler4x};
use crate::dsp::room::{
    Allpass, AllpassView, Comb, CombView, RoomEffects, RoomReverb, RoomView, Tank, TankView,
};
use crate::dsp::saturation::{DcBlocker, Saturation, SaturationSettings, Side, SideView};
use crate::dsp::spatial::Speaker;
use crate::dsp::spatializer::{SpatialView, Spatializer};
use crate::dsp::surround::{SpeakerSetup, SpeakerView, Surround3D, SurroundView};
use crate::dsp::tuning::{
    bass_settings, compander_curve, compander_speeds, compute_drive_makeup, crossover_freqs,
    cut_from_zero, db_to_lin, delay_in_samples, filter_keep, gain_factor, limiter_timing,
    lookahead_samples, pre_delay_room, reverb_plan, room_plan, room_tuning, speaker_setups,
    BUTTERWORTH_Q, COMPANDER_AHEAD_MS, CROSSFEED_HZ, EAR_DELAY_S, HRTF_HZ, LFE_HZ, LIMITER_AHEAD_MS,
    LIMITER_CEILING, LIMITER_RELEASE_MS, LONGEST_PRE_DELAY, NOTCH_DB, NOTCH_HZ, NOTCH_Q,
    REAR_DELAY_S, REFERENCE_RATE, SHELF_HZ, SHELF_Q, THOUSAND_BITS,
};
use crate::float_bits::{bits_magnitude, less_than, same_value, ONE_BITS, TWO_BITS};
use crate::text::same_text;
use crate::types::{
    BassBoostState, CompanderState, EqState, HeadphoneCorrectionState, OutputState, ParametricBand,
    RoomState, SaturationState, SpatialMode, SpatializerState, Surround3DState, SurroundSpeakers,
};
use crate::wide::Wide;

verus! {

/// The bits of the distance from one to the next larger number.
pub const STEP_BITS: u32 = 0x3400_0000;

/// A setting has moved: the values are further apart than rounding explains.
pub open spec fn moved(a: u32, b: u32, g: spec_fn(Calc, u32, u32) -> u32) -> bool {
    crate::float_bits::less(
        STEP_BITS,
        crate::float_bits::magnitude(g(Calc::Sub, a, b)) as u32,
    )
}

fn has_moved<F: Fn(Calc, u32, u32) -> u32>(a: u32, b: u32, f: &F) -> (r: bool)
    requires
        crate::dsp::arith::callable(*f),
    ensures
        forall|g: spec_fn(Calc, u32, u32) -> u32| #[trigger]
            crate::dsp::arith::computes(*f, g) ==> r == moved(a, b, g),
{
    let apart: u32 = apply(f, Calc::Sub, a, b);
    less_than(STEP_BITS, bits_magnitude(apart))
}

/// The shelf of the bass boost, for a boost in dB.
pub open spec fn shelf_at(rate: u32, amount: u32, h: spec_fn(Wide, u64, u64) -> u64) -> Coeffs {
    crate::dsp::design::low_shelf(rate, SHELF_HZ, amount, SHELF_Q, h)
}

fn shelf<W: Fn(Wide, u64, u64) -> u64>(rate: u32, amount: u32, w: &W) -> (r: Coeffs)
    requires
        crate::float_bits::at_most(LEAST_RATE, rate),
        crate::wide::callable(*w),
    ensures
        forall|h: spec_fn(Wide, u64, u64) -> u64| #[trigger]
            crate::wide::computes(*w, h) ==> r == shelf_at(rate, amount, h),
{
    let mut section = Biquad::identity();
    section.set_low_shelf(rate, SHELF_HZ, amount, SHELF_Q, w);
    section.coeffs()
}

/// The bass boost in a format.
pub struct BassStage {
    pub rate: u32,
    /// The boost in dB for which the shelf is tuned.
    pub amount: u32,
    pub stage: BassBoost,
}

/// How many channels a stage is made for: one in any case.
pub open spec fn channel_count(channels: usize) -> nat {
    (if channels < 1 {
        1
    } else {
        channels as int
    }) as nat
}

/// A bass boost that was made ready for a format.
pub open spec fn bass_prepared<F: Fn(Calc, u32, u32) -> u32, W: Fn(Wide, u64, u64) -> u64>(
    before: BassStage,
    rate: u32,
    channels: usize,
    f: F,
    w: W,
    after: BassStage,
) -> bool {
    &&& after.rate == rate
    &&& after.amount == before.amount
    &&& forall|g: spec_fn(Calc, u32, u32) -> u32| #[trigger]
        crate::dsp::arith::computes(f, g) ==> after.stage.settings()
            == crate::dsp::tuning::bass_settings_of(
            BassBoostState {
                enabled: before.stage.settings().enabled,
                amount: before.amount,
                harmonics: before.stage.settings().harmonics,
                adaptive: before.stage.settings().adaptive,
            },
            rate,
            g,
        )
    &&& forall|h: spec_fn(Wide, u64, u64) -> u64| #[trigger]
        crate::wide::computes(w, h) ==> after.stage.channels() == Seq::new(
            channel_count(channels),
            |i: int| crate::dsp::bass::bass_at_rest(shelf_at(rate, before.amount, h)),
        )
}

/// A bass boost that took settings.
pub open spec fn bass_set<F: Fn(Calc, u32, u32) -> u32, W: Fn(Wide, u64, u64) -> u64>(
    before: BassStage,
    params: BassBoostState,
    f: F,
    w: W,
    after: BassStage,
) -> bool {
    &&& after.rate == before.rate
    &&& forall|g: spec_fn(Calc, u32, u32) -> u32, h: spec_fn(Wide, u64, u64) -> u64|
     #[trigger]
        crate::dsp::arith::computes(f, g) && #[trigger] crate::wide::computes(w, h) ==> {
            let again = moved(before.amount, params.amount, g);
            let shelf = shelf_at(before.rate, params.amount, h);
            &&& after.stage.settings() == crate::dsp::tuning::bass_settings_of(
                params,
                before.rate,
                g,
            )
            &&& after.amount == (if again {
                params.amount
            } else {
                before.amount
            })
            &&& after.stage.channels() == (if again {
                crate::dsp::bass::shelves_tuned(before.stage.channels(), shelf)
            } else {
                before.stage.channels()
            })
        }
}

/// A bass boost in a format, before it took any settings.
pub open spec fn bass_fresh<F: Fn(Calc, u32, u32) -> u32, W: Fn(Wide, u64, u64) -> u64>(
    rate: u32,
    channels: usize,
    f: F,
    w: W,
    r: BassStage,
) -> bool {
    &&& r.rate == rate
    &&& r.amount == 0
    &&& forall|g: spec_fn(Calc, u32, u32) -> u32| #[trigger]
        crate::dsp::arith::computes(f, g) ==> r.stage.settings()
            == crate::dsp::tuning::bass_settings_of(
            BassBoostState { enabled: false, amount: 0, harmonics: false, adaptive: false },
            rate,
            g,
        )
    &&& forall|h: spec_fn(Wide, u64, u64) -> u64| #[trigger]
        crate::wide::computes(w, h) ==> r.stage.channels() == Seq::new(
            channel_count(channels),
            |i: int| crate::dsp::bass::bass_at_rest(shelf_at(rate, 0, h)),
        )
}

impl BassStage {
    /// A boost that is off.
    pub fn new<F: Fn(Calc, u32, u32) -> u32, W: Fn(Wide, u64, u64) -> u64>(
        rate: u32,
        channels: usize,
        f: &F,
        w: &W,
    ) -> (r: BassStage)
        requires
            crate::float_bits::at_most(LEAST_RATE, rate),
            crate::dsp::arith::callable(*f),
            crate::wide::callable(*w),
        ensures
            bass_fresh(rate, channels, *f, *w, r),
    {
        let off = BassBoostState { enabled: false, amount: 0, harmonics: false, adaptive: false };
        let tuned: Coeffs = shelf(rate, 0, w);
        let stage = BassBoost::new(bass_settings(&off, rate, f), channels, tuned);
        BassStage { rate, amount: 0, stage }
    }

    /// Starts anew in another format, with the same settings.
    pub fn prepare<F: Fn(Calc, u32, u32) -> u32, W: Fn(Wide, u64, u64) -> u64>(
        &mut self,
        rate: u32,
        channels: usize,
        f: &F,
        w: &W,
    )
        requires
            crate::float_bits::at_most(LEAST_RATE, rate),
            crate::dsp::arith::callable(*f),
            crate::wide::callable(*w),
        ensures
            bass_prepared(*old(self), rate, channels, *f, *w, *final(self)),
    {
        let now = self.stage.current();
        let state = BassBoostState {
            enabled: now.enabled,
            amount: self.amount,
            harmonics: now.harmonics,
            adaptive: now.adaptive,
        };
        let tuned: Coeffs = shelf(rate, self.amount, w);
        self.rate = rate;
        self.stage = BassBoost::new(bass_settings(&state, rate, f), channels, tuned);
    }

    /// Takes settings; the shelf is tuned again where the boost has moved.
    pub fn set_params<F: Fn(Calc, u32, u32) -> u32, W: Fn(Wide, u64, u64) -> u64>(
        &mut self,
        params: &BassBoostState,
        f: &F,
        w: &W,
    )
        requires
            crate::float_bits::at_most(LEAST_RATE, old(self).rate),
            crate::dsp::arith::callable(*f),
            crate::wide::callable(*w),
        ensures
            bass_set(*old(self), *params, *f, *w, *final(self)),
    {
        self.stage.set_params(bass_settings(params, self.rate, f));
        if has_moved(self.amount, params.amount, f) {
            self.amount = params.amount;
            let tuned: Coeffs = shelf(self.rate, params.amount, w);
            self.stage.retune(tuned);
        }
    }
}

/// A gain that took settings.
pub open spec fn gain_set<F: Fn(Calc, u32, u32) -> u32>(
    params: OutputState,
    f: F,
    after: Gain,
) -> bool {
    forall|g: spec_fn(Calc, u32, u32) -> u32| #[trigger]
        crate::dsp::arith::computes(f, g) ==> after.factor
            == crate::dsp::tuning::factor_of(params.gain_db, g)
}

/// Gives the output gain its settings.
pub fn set_gain<F: Fn(Calc, u32, u32) -> u32>(gain: &mut Gain, params: &OutputState, f: &F)
    requires
        crate::dsp::arith::callable(*f),
    ensures
        gain_set(*params, *f, *final(gain)),
{
    gain.set_params(gain_factor(params.gain_db, f));
}

/// How far ahead a limiter looks in samples, at least one, and how fast its gain comes back.
pub open spec fn limiter_pace(rate: u32, g: spec_fn(Calc, u32, u32) -> u32) -> (int, u32) {
    (
        crate::dsp::tuning::one_or_more(
            crate::dsp::tuning::samples_in(
                g(Calc::Div, LIMITER_AHEAD_MS, THOUSAND_BITS),
                rate,
                g,
            ),
        ),
        crate::dsp::tuning::speed_over(
            g(Calc::Div, LIMITER_RELEASE_MS, THOUSAND_BITS),
            rate,
            g,
        ),
    )
}

fn pace<F: Fn(Calc, u32, u32) -> u32>(rate: u32, f: &F) -> (r: (usize, u32))
    requires
        crate::dsp::arith::callable(*f),
    ensures
        r.0 >= 1,
        forall|g: spec_fn(Calc, u32, u32) -> u32| #[trigger]
            crate::dsp::arith::computes(*f, g) ==> limiter_pace(rate, g) == (r.0 as int, r.1),
{
    let (ahead, release) = limiter_timing(rate, f);
    (
        if ahead < 1 {
            1
        } else {
            ahead
        },
        release,
    )
}

/// A limiter in a format, before it took any settings.
pub open spec fn limiter_fresh<F: Fn(Calc, u32, u32) -> u32>(
    rate: u32,
    channels: usize,
    f: F,
    r: Limiter,
) -> bool {
    &&& r@.frames.len() == 0
    &&& forall|g: spec_fn(Calc, u32, u32) -> u32| #[trigger]
        crate::dsp::arith::computes(f, g) ==> r@ == crate::dsp::limiter::restarted(
            LimiterView {
                enabled: true,
                ceiling: LIMITER_CEILING,
                release: limiter_pace(rate, g).1,
                gain: ONE_BITS,
                lookahead: limiter_pace(rate, g).0,
                width: channels as nat,
                frames: Seq::empty(),
            },
            channels as nat,
        )
}

/// A limiter that is on, in a format.
pub fn new_limiter<F: Fn(Calc, u32, u32) -> u32>(rate: u32, channels: usize, f: &F) -> (r: Limiter)
    requires
        crate::dsp::arith::callable(*f),
    ensures
        r.wf(),
        limiter_fresh(rate, channels, *f, r),
{
    let (ahead, release) = pace(rate, f);
    Limiter::new(LIMITER_CEILING, release, ahead, channels)
}

/// A limiter that was made ready for a format.
pub open spec fn limiter_prepared<F: Fn(Calc, u32, u32) -> u32>(
    before: Limiter,
    rate: u32,
    channels: usize,
    f: F,
    after: Limiter,
) -> bool {
    &&& after@.frames.len() == 0
    &&& forall|g: spec_fn(Calc, u32, u32) -> u32| #[trigger]
        crate::dsp::arith::computes(f, g) ==> after@
            == crate::dsp::limiter::restarted(
            LimiterView {
                release: limiter_pace(rate, g).1,
                lookahead: limiter_pace(rate, g).0,
                ..before@
            },
            channel_count(channels),
        )
}

/// Starts a limiter anew in another format, with the same settings.
pub fn prepare_limiter<F: Fn(Calc, u32, u32) -> u32>(
    limiter: &mut Limiter,
    rate: u32,
    channels: usize,
    f: &F,
)
    requires
        crate::dsp::arith::callable(*f),
    ensures
        final(limiter).wf(),
        limiter_prepared(*old(limiter), rate, channels, *f, *final(limiter)),
{
    let (ahead, release) = pace(rate, f);
    limiter.prepare(release, ahead, channels);
}

/// A limiter that took settings.
pub open spec fn limiter_set<F: Fn(Calc, u32, u32) -> u32>(
    before: Limiter,
    params: OutputState,
    f: F,
    after: Limiter,
) -> bool {
    &&& after@.frames == before@.frames
    &&& forall|g: spec_fn(Calc, u32, u32) -> u32| #[trigger]
        crate::dsp::arith::computes(f, g) ==> after@ == (
        LimiterView {
            enabled: params.limiter_enabled,
            ceiling: crate::dsp::tuning::factor_of(params.ceiling_db, g),
            ..before@
        })
}

/// Gives a limiter its settings.
pub fn set_limiter<F: Fn(Calc, u32, u32) -> u32>(
    limiter: &mut Limiter,
    params: &OutputState,
    f: &F,
)
    requires
        crate::dsp::arith::callable(*f),
    ensures
        final(limiter).wf() == old(limiter).wf(),
        limiter_set(*old(limiter), *params, *f, *final(limiter)),
{
    limiter.set_params(params.limiter_enabled, gain_factor(params.ceiling_db, f));
}

/// The notch of the spatializer.
pub open spec fn notch_of(rate: u32, h: spec_fn(Wide, u64, u64) -> u64) -> Coeffs {
    crate::dsp::design::peaking(rate, NOTCH_HZ, NOTCH_DB, NOTCH_Q, h)
}

fn notch<W: Fn(Wide, u64, u64) -> u64>(rate: u32, w: &W) -> (r: Coeffs)
    requires
        crate::float_bits::at_most(LEAST_RATE, rate),
        crate::wide::callable(*w),
    ensures
        forall|h: spec_fn(Wide, u64, u64) -> u64| #[trigger]
            crate::wide::computes(*w, h) ==> r == notch_of(rate, h),
{
    let mut section = Biquad::identity();
    section.set_peaking(rate, NOTCH_HZ, NOTCH_DB, NOTCH_Q, w);
    section.coeffs()
}

/// A spatializer at rest in a format, with notches that are given.
pub open spec fn spatial_in(
    s: SpatialView,
    rate: u32,
    g: spec_fn(Calc, u32, u32) -> u32,
) -> SpatialView {
    crate::dsp::spatializer::spatial_at_rest(
        s,
        crate::dsp::tuning::samples_in(EAR_DELAY_S, rate, g),
        crate::dsp::tuning::kept_at(CROSSFEED_HZ, rate, g),
        crate::dsp::tuning::kept_at(HRTF_HZ, rate, g),
    )
}

/// A spatializer in a format, before it took any settings.
pub open spec fn spatializer_fresh<F: Fn(Calc, u32, u32) -> u32, W: Fn(Wide, u64, u64) -> u64>(
    rate: u32,
    f: F,
    w: W,
    r: Spatializer,
) -> bool {
    &&& !r.measured()
    &&& forall|g: spec_fn(Calc, u32, u32) -> u32, h: spec_fn(Wide, u64, u64) -> u64| #[trigger]
        crate::dsp::arith::computes(f, g) && #[trigger] crate::wide::computes(w, h) ==> {
            let section = crate::dsp::spatializer::notch_at_rest(notch_of(rate, h));
            r@ == spatial_in(
                SpatialView {
                    enabled: false,
                    amount: 0,
                    mode: SpatialMode::Crossfeed,
                    left: Seq::empty(),
                    right: Seq::empty(),
                    delay: 0,
                    to_left: 0,
                    to_right: 0,
                    cross_keep: 0,
                    hrtf_keep: 0,
                    notch_left: section,
                    notch_right: section,
                },
                rate,
                g,
            )
        }
}

/// A spatializer that is off, in a format.
pub fn new_spatializer<F: Fn(Calc, u32, u32) -> u32, W: Fn(Wide, u64, u64) -> u64>(
    rate: u32,
    f: &F,
    w: &W,
) -> (r: Spatializer)
    requires
        crate::float_bits::at_most(LEAST_RATE, rate),
        crate::dsp::arith::callable(*f),
        crate::wide::callable(*w),
    ensures
        r.wf(),
        spatializer_fresh(rate, *f, *w, r),
{
    let delay: usize = delay_in_samples(EAR_DELAY_S, rate, f);
    let cross: u32 = filter_keep(CROSSFEED_HZ, rate, f);
    let hrtf: u32 = filter_keep(HRTF_HZ, rate, f);
    let section: Coeffs = notch(rate, w);
    Spatializer::new(delay, cross, hrtf, section)
}

/// A spatializer that was made ready for a format.
pub open spec fn spatializer_prepared<F: Fn(Calc, u32, u32) -> u32, W: Fn(Wide, u64, u64) -> u64>(
    before: Spatializer,
    rate: u32,
    f: F,
    w: W,
    after: Spatializer,
) -> bool {
    &&& after.measured() == before.measured()
    &&& forall|g: spec_fn(Calc, u32, u32) -> u32, h: spec_fn(Wide, u64, u64) -> u64| #[trigger]
        crate::dsp::arith::computes(f, g) && #[trigger] crate::wide::computes(w, h) ==> {
            let section = notch_of(rate, h);
            after@ == spatial_in(
                SpatialView {
                    notch_left: crate::dsp::biquad::tuned(before@.notch_left, section),
                    notch_right: crate::dsp::biquad::tuned(before@.notch_right, section),
                    ..before@
                },
                rate,
                g,
            )
        }
}

/// Brings a spatializer to rest in another format, with the same settings.
pub fn prepare_spatializer<F: Fn(Calc, u32, u32) -> u32, W: Fn(Wide, u64, u64) -> u64>(
    s: &mut Spatializer,
    rate: u32,
    f: &F,
    w: &W,
)
    requires
        crate::float_bits::at_most(LEAST_RATE, rate),
        crate::dsp::arith::callable(*f),
        crate::wide::callable(*w),
    ensures
        final(s).wf(),
        spatializer_prepared(*old(s), rate, *f, *w, *final(s)),
{
    let delay: usize = delay_in_samples(EAR_DELAY_S, rate, f);
    let cross: u32 = filter_keep(CROSSFEED_HZ, rate, f);
    let hrtf: u32 = filter_keep(HRTF_HZ, rate, f);
    let section: Coeffs = notch(rate, w);
    s.prepare(delay, cross, hrtf, section);
}

/// A spatializer that took settings.
pub open spec fn spatializer_set(
    before: Spatializer,
    params: SpatializerState,
    after: Spatializer,
) -> bool {
    &&& after.measured() == before.measured()
    &&& after@ == (SpatialView {
        enabled: params.enabled,
        amount: crate::dsp::arith::unit(params.amount),
        mode: params.mode,
        ..before@
    })
}

/// Gives a spatializer its settings.
pub fn set_spatializer(s: &mut Spatializer, params: &SpatializerState)
    requires
        old(s).wf(),
    ensures
        final(s).wf(),
        spatializer_set(*old(s), *params, *final(s)),
{
    s.set_params(params.enabled, params.amount, params.mode);
}

/// The equalizer in a format.
pub struct EqStage {
    pub rate: u32,
    /// The gains in dB for which the filters are tuned.
    pub bands: [u32; 31],
    pub stage: GraphicEq,
}

/// The same gains.
pub open spec fn same_gains(a: Seq<u32>, b: Seq<u32>) -> bool {
    forall|i: int| 0 <= i < 31 ==> crate::float_bits::same(#[trigger] a[i], b[i])
}

fn equal_gains(a: &[u32; 31], b: &[u32; 31]) -> (r: bool)
    ensures
        r == same_gains(a@, b@),
{
    let mut i: usize = 0;
    while i < 31
        invariant
            i <= 31,
            forall|k: int| 0 <= k < i ==> crate::float_bits::same(#[trigger] a@[k], b@[k]),
        decreases 31 - i,
    {
        if !same_value(a[i], b[i]) {
            assert(!crate::float_bits::same(a@[i as int], b@[i as int]));
            return false;
        }
        i += 1;
    }
    true
}

/// An equalizer that was made ready for a format.
pub open spec fn eq_prepared<W: Fn(Wide, u64, u64) -> u64>(
    before: EqStage,
    rate: u32,
    channels: usize,
    w: W,
    after: EqStage,
) -> bool {
    &&& after.rate == rate
    &&& after.bands == before.bands
    &&& forall|h: spec_fn(Wide, u64, u64) -> u64| #[trigger]
        crate::wide::computes(w, h) ==> after.stage@ == (FilterView {
            bank: crate::dsp::equalizer::fresh_bank(
                channel_count(channels),
                EQ_BANDS as nat,
                crate::dsp::design::graphic_designs(rate, before.bands@, h),
            ),
            ..before.stage@
        })
}

/// An equalizer that took settings.
pub open spec fn eq_set<F: Fn(Calc, u32, u32) -> u32, W: Fn(Wide, u64, u64) -> u64>(
    before: EqStage,
    params: EqState,
    f: F,
    w: W,
    after: EqStage,
) -> bool {
    &&& after.rate == before.rate
    &&& after.bands == (if same_gains(before.bands@, params.bands@) {
        before.bands
    } else {
        params.bands
    })
    &&& forall|g: spec_fn(Calc, u32, u32) -> u32, h: spec_fn(Wide, u64, u64) -> u64|
     #[trigger]
        crate::dsp::arith::computes(f, g) && #[trigger] crate::wide::computes(w, h)
            ==> after.stage@ == (FilterView {
            enabled: params.enabled,
            gain: crate::dsp::tuning::factor_of(params.pre_gain, g),
            bank: if same_gains(before.bands@, params.bands@) {
                before.stage@.bank
            } else {
                before.stage@.bank.map_values(
                    |s: Seq<Biquad>|
                        crate::dsp::equalizer::sections_tuned(
                            s,
                            crate::dsp::design::graphic_designs(
                                before.rate,
                                params.bands@,
                                h,
                            ),
                        ),
                )
            },
            ..before.stage@
        })
}

/// An equalizer in a format, before it took any settings.
pub open spec fn eq_fresh<W: Fn(Wide, u64, u64) -> u64>(
    rate: u32,
    channels: usize,
    w: W,
    r: EqStage,
) -> bool {
    &&& r.rate == rate
    &&& r.bands@ == Seq::new(31, |i: int| 0u32)
    &&& forall|h: spec_fn(Wide, u64, u64) -> u64| #[trigger]
        crate::wide::computes(w, h) ==> r.stage@ == (FilterView {
            enabled: true,
            gain: ONE_BITS,
            active: EQ_BANDS as nat,
            bank: crate::dsp::equalizer::fresh_bank(
                channel_count(channels),
                EQ_BANDS as nat,
                crate::dsp::design::graphic_designs(rate, r.bands@, h),
            ),
        })
}

impl EqStage {
    /// A flat equalizer.
    pub fn new<W: Fn(Wide, u64, u64) -> u64>(rate: u32, channels: usize, w: &W) -> (r: EqStage)
        requires
            crate::float_bits::at_most(LEAST_RATE, rate),
            crate::wide::callable(*w),
        ensures
            r.stage.wf(),
            eq_fresh(rate, channels, *w, r),
    {
        let bands: [u32; 31] = [0; 31];
        assert(bands@ =~= Seq::new(31, |i: int| 0u32));
        let filters: Vec<Coeffs> = graphic_filters(rate, &bands, w);
        let stage = GraphicEq::new(channels, &filters);
        EqStage { rate, bands, stage }
    }

    /// Starts anew in another format, with the same settings.
    pub fn prepare<W: Fn(Wide, u64, u64) -> u64>(&mut self, rate: u32, channels: usize, w: &W)
        requires
            crate::float_bits::at_most(LEAST_RATE, rate),
            crate::wide::callable(*w),
        ensures
            final(self).stage.wf(),
            eq_prepared(*old(self), rate, channels, *w, *final(self)),
    {
        self.rate = rate;
        let filters: Vec<Coeffs> = graphic_filters(rate, &self.bands, w);
        self.stage.prepare(channels, &filters);
    }

    /// Takes settings; the filters are tuned again where a gain has changed.
    pub fn set_params<F: Fn(Calc, u32, u32) -> u32, W: Fn(Wide, u64, u64) -> u64>(
        &mut self,
        params: &EqState,
        f: &F,
        w: &W,
    )
        requires
            old(self).stage.wf(),
            crate::float_bits::at_most(LEAST_RATE, old(self).rate),
            crate::dsp::arith::callable(*f),
            crate::wide::callable(*w),
        ensures
            final(self).stage.wf(),
            eq_set(*old(self), *params, *f, *w, *final(self)),
    {
        let gain: u32 = gain_factor(params.pre_gain, f);
        if equal_gains(&self.bands, &params.bands) {
            self.stage.set_level(params.enabled, gain);
        } else {
            self.bands = params.bands;
            let filters: Vec<Coeffs> = graphic_filters(self.rate, &self.bands, w);
            self.stage.set_params(params.enabled, gain, &filters);
        }
    }
}

/// A band of a profile: its kind, frequency, gain and quality.
pub open spec fn band_said(b: ParametricBand) -> (Seq<char>, u32, u32, u32) {
    (b.kind@, b.freq, b.gain, b.q)
}

/// The bands of a profile.
pub open spec fn bands_said(s: Seq<ParametricBand>) -> Seq<(Seq<char>, u32, u32, u32)> {
    s.map_values(|b: ParametricBand| band_said(b))
}

/// The same bands.
pub open spec fn same_profile(a: Seq<ParametricBand>, b: Seq<ParametricBand>) -> bool {
    &&& a.len() == b.len()
    &&& forall|i: int|
        0 <= i < a.len() ==> {
            &&& (#[trigger] a[i]).kind@ == b[i].kind@
            &&& crate::float_bits::same(a[i].freq, b[i].freq)
            &&& crate::float_bits::same(a[i].gain, b[i].gain)
            &&& crate::float_bits::same(a[i].q, b[i].q)
        }
}

fn equal_profiles(a: &Vec<ParametricBand>, b: &Vec<ParametricBand>) -> (r: bool)
    ensures
        r == same_profile(a@, b@),
{
    if a.len() != b.len() {
        return false;
    }
    let mut i: usize = 0;
    while i < a.len()
        invariant
            i <= a@.len(),
            a@.len() == b@.len(),
            forall|k: int|
                0 <= k < i ==> {
                    &&& (#[trigger] a@[k]).kind@ == b@[k].kind@
                    &&& crate::float_bits::same(a@[k].freq, b@[k].freq)
                    &&& crate::float_bits::same(a@[k].gain, b@[k].gain)
                    &&& crate::float_bits::same(a@[k].q, b@[k].q)
                },
        decreases a@.len() - i,
    {
        let same: bool = same_text(a[i].kind.as_str(), b[i].kind.as_str()) && same_value(
            a[i].freq,
            b[i].freq,
        ) && same_value(a[i].gain, b[i].gain) && same_value(a[i].q, b[i].q);
        if !same {
            assert(a@[i as int] == a@[i as int]);
            return false;
        }
        i += 1;
    }
    true
}

fn copied_bands(bands: &Vec<ParametricBand>) -> (r: Vec<ParametricBand>)
    ensures
        bands_said(r@) == bands_said(bands@),
{
    let mut out: Vec<ParametricBand> = Vec::new();
    while out.len() < bands.len()
        invariant
            out@.len() <= bands@.len(),
            forall|k: int|
                0 <= k < out@.len() ==> band_said(#[trigger] out@[k]) == band_said(bands@[k]),
        decreases bands@.len() - out@.len(),
    {
        let b: &ParametricBand = &bands[out.len()];
        out.push(ParametricBand { kind: b.kind.clone(), freq: b.freq, gain: b.gain, q: b.q });
    }
    assert(bands_said(out@) =~= bands_said(bands@));
    out
}

/// The filters of a profile; of a long one only the first bands count.
pub open spec fn profile_filters(
    rate: u32,
    bands: Seq<ParametricBand>,
    h: spec_fn(Wide, u64, u64) -> u64,
) -> Seq<Coeffs> {
    Seq::new(
        crate::dsp::equalizer::used_bands(bands.len()),
        |k: int| crate::dsp::design::band_design(rate, bands[k], h),
    )
}

fn filters_of<W: Fn(Wide, u64, u64) -> u64>(rate: u32, bands: &Vec<ParametricBand>, w: &W) -> (r: Vec<
    Coeffs,
>)
    requires
        crate::float_bits::at_most(LEAST_RATE, rate),
        crate::wide::callable(*w),
    ensures
        r@.len() == crate::dsp::equalizer::used_bands(bands@.len()),
        forall|h: spec_fn(Wide, u64, u64) -> u64| #[trigger]
            crate::wide::computes(*w, h) ==> r@ == profile_filters(rate, bands@, h),
{
    let filters: Vec<Coeffs> = correction_filters(rate, bands, w);
    assert forall|h: spec_fn(Wide, u64, u64) -> u64| #[trigger]
        crate::wide::computes(*w, h) implies filters@ == profile_filters(rate, bands@, h) by {
        assert(filters@ =~= profile_filters(rate, bands@, h));
    }
    filters
}

/// The headphone correction in a format.
pub struct HeadphoneStage {
    pub rate: u32,
    /// The bands for which the filters are tuned.
    pub bands: Vec<ParametricBand>,
    pub stage: HeadphoneCorrection,
}

/// A correction that was made ready for a format.
pub open spec fn headphone_prepared<W: Fn(Wide, u64, u64) -> u64>(
    before: HeadphoneStage,
    rate: u32,
    channels: usize,
    w: W,
    after: HeadphoneStage,
) -> bool {
    &&& after.rate == rate
    &&& after.bands == before.bands
    &&& forall|h: spec_fn(Wide, u64, u64) -> u64| #[trigger]
        crate::wide::computes(w, h) ==> after.stage@ == (FilterView {
            bank: crate::dsp::equalizer::fresh_bank(
                channel_count(channels),
                MAX_BANDS as nat,
                profile_filters(rate, before.bands@, h),
            ),
            ..before.stage@
        })
}

/// A correction that took settings.
pub open spec fn headphone_set<F: Fn(Calc, u32, u32) -> u32, W: Fn(Wide, u64, u64) -> u64>(
    before: HeadphoneStage,
    params: HeadphoneCorrectionState,
    f: F,
    w: W,
    after: HeadphoneStage,
) -> bool {
    &&& after.rate == before.rate
    &&& bands_said(after.bands@) == (if same_profile(before.bands@, params.bands@) {
        bands_said(before.bands@)
    } else {
        bands_said(params.bands@)
    })
    &&& forall|g: spec_fn(Calc, u32, u32) -> u32, h: spec_fn(Wide, u64, u64) -> u64|
     #[trigger]
        crate::dsp::arith::computes(f, g) && #[trigger] crate::wide::computes(w, h) ==> {
            let set = FilterView {
                enabled: params.enabled,
                gain: crate::dsp::tuning::factor_of(params.preamp, g),
                ..before.stage@
            };
            let filters = profile_filters(before.rate, params.bands@, h);
            after.stage@ == (if same_profile(before.bands@, params.bands@) {
                set
            } else {
                FilterView {
                    active: filters.len(),
                    bank: set.bank.map_values(
                        |s: Seq<Biquad>|
                            crate::dsp::equalizer::sections_tuned(s, filters),
                    ),
                    ..set
                }
            })
        }
}

/// A correction in a format, before it took any settings.
pub open spec fn headphone_fresh(
    rate: u32,
    channels: usize,
    r: HeadphoneStage,
) -> bool {
    &&& r.rate == rate
    &&& r.bands@.len() == 0
    &&& r.stage@ == (FilterView {
        enabled: false,
        gain: ONE_BITS,
        active: 0,
        bank: crate::dsp::equalizer::fresh_bank(
            channel_count(channels),
            MAX_BANDS as nat,
            Seq::empty(),
        ),
    })
}

impl HeadphoneStage {
    /// A correction that is off.
    pub fn new(rate: u32, channels: usize) -> (r: HeadphoneStage)
        ensures
            r.stage.wf(),
            headphone_fresh(rate, channels, r),
    {
        HeadphoneStage { rate, bands: Vec::new(), stage: HeadphoneCorrection::new(channels) }
    }

    /// Starts anew in another format, with the same settings.
    pub fn prepare<W: Fn(Wide, u64, u64) -> u64>(&mut self, rate: u32, channels: usize, w: &W)
        requires
            old(self).stage.wf(),
            crate::float_bits::at_most(LEAST_RATE, rate),
            crate::wide::callable(*w),
        ensures
            final(self).stage.wf(),
            headphone_prepared(*old(self), rate, channels, *w, *final(self)),
    {
        self.rate = rate;
        let filters: Vec<Coeffs> = filters_of(rate, &self.bands, w);
        self.stage.prepare(channels, &filters);
    }

    /// Takes settings; the filters are tuned again where the profile is another one.
    pub fn set_params<F: Fn(Calc, u32, u32) -> u32, W: Fn(Wide, u64, u64) -> u64>(
        &mut self,
        params: &HeadphoneCorrectionState,
        f: &F,
        w: &W,
    )
        requires
            old(self).stage.wf(),
            crate::float_bits::at_most(LEAST_RATE, old(self).rate),
            crate::dsp::arith::callable(*f),
            crate::wide::callable(*w),
        ensures
            final(self).stage.wf(),
            headphone_set(*old(self), *params, *f, *w, *final(self)),
    {
        self.stage.set_params(params.enabled, gain_factor(params.preamp, f));
        if !equal_profiles(&self.bands, &params.bands) {
            self.bands = copied_bands(&params.bands);
            let filters: Vec<Coeffs> = filters_of(self.rate, &params.bands, w);
            self.stage.set_bands(&filters);
        }
    }
}

/// The filters between the bands of the compander.
pub open spec fn crossover_designs(
    rate: u32,
    g: spec_fn(Calc, u32, u32) -> u32,
    h: spec_fn(Wide, u64, u64) -> u64,
) -> Seq<Coeffs> {
    Seq::new(
        9,
        |i: int|
            crate::dsp::design::lowpass(
                rate,
                g(
                    Calc::Sqrt,
                    g(
                        Calc::Mul,
                        crate::dsp::tuning::compander_centers()[i],
                        crate::dsp::tuning::compander_centers()[i + 1],
                    ),
                    0,
                ),
                BUTTERWORTH_Q,
                h,
            ),
    )
}

fn crossovers<F: Fn(Calc, u32, u32) -> u32, W: Fn(Wide, u64, u64) -> u64>(
    rate: u32,
    f: &F,
    w: &W,
) -> (r: Vec<Coeffs>)
    requires
        crate::float_bits::at_most(LEAST_RATE, rate),
        crate::dsp::arith::callable(*f),
        crate::wide::callable(*w),
    ensures
        r@.len() == 9,
        forall|g: spec_fn(Calc, u32, u32) -> u32, h: spec_fn(Wide, u64, u64) -> u64| #[trigger]
            crate::dsp::arith::computes(*f, g) && #[trigger] crate::wide::computes(*w, h) ==> r@
                == crossover_designs(rate, g, h),
{
    let freqs: Vec<u32> = crossover_freqs(f);
    let mut out: Vec<Coeffs> = Vec::new();
    while out.len() < 9
        invariant
            out@.len() <= 9,
            freqs@.len() == 9,
            crate::float_bits::at_most(LEAST_RATE, rate),
            crate::wide::callable(*w),
            forall|h: spec_fn(Wide, u64, u64) -> u64, i: int|
                0 <= i < out@.len() && #[trigger] crate::wide::computes(*w, h) ==> #[trigger] out@[i]
                    == crate::dsp::design::lowpass(rate, freqs@[i], BUTTERWORTH_Q, h),
        decreases 9 - out@.len(),
    {
        let mut section = Biquad::identity();
        section.set_lowpass(rate, freqs[out.len()], BUTTERWORTH_Q, w);
        out.push(section.coeffs());
    }
    assert forall|g: spec_fn(Calc, u32, u32) -> u32, h: spec_fn(Wide, u64, u64) -> u64| #[trigger]
        crate::dsp::arith::computes(*f, g) && #[trigger] crate::wide::computes(*w, h) implies out@
        == crossover_designs(rate, g, h) by {
        assert forall|i: int| 0 <= i < 9 implies #[trigger] out@[i] == crossover_designs(
            rate,
            g,
            h,
        )[i] by {
            assert(freqs@[i] == freqs@[i]);
        }
        assert(out@ =~= crossover_designs(rate, g, h));
    }
    out
}

/// How far ahead the compander looks, in samples.
pub open spec fn compander_ahead(rate: u32, g: spec_fn(Calc, u32, u32) -> u32) -> nat {
    crate::dsp::tuning::counted(
        g(
            Calc::Round,
            g(Calc::Mul, g(Calc::Mul, COMPANDER_AHEAD_MS, crate::dsp::tuning::MILLI_BITS), rate),
            0,
        ),
        g,
    ) as nat
}

/// A band of the compander with settings; it keeps its memory.
pub open spec fn band_set(
    b: BandView,
    state: CompanderState,
    rate: u32,
    g: spec_fn(Calc, u32, u32) -> u32,
) -> BandView {
    let speeds = crate::dsp::tuning::speeds_of(state, rate, g);
    BandView {
        curve: crate::dsp::tuning::curve_of(state),
        attack: speeds.attack,
        release: speeds.release,
        declick: speeds.declick,
        makeup: g(Calc::Exp, g(Calc::Mul, state.makeup_db, crate::dsp::tuning::NEPERS), 0),
        ..b
    }
}

/// The compander in a format.
pub struct CompanderStage {
    pub rate: u32,
    /// The settings of the bands, where the format has not changed since they were taken.
    pub applied: Option<CompanderState>,
    pub stage: Compander,
}

/// A compander that was made ready for a format.
pub open spec fn compander_prepared<F: Fn(Calc, u32, u32) -> u32, W: Fn(Wide, u64, u64) -> u64>(
    before: CompanderStage,
    rate: u32,
    f: F,
    w: W,
    after: CompanderStage,
) -> bool {
    &&& after.rate == rate
    &&& after.applied is None
    &&& forall|g: spec_fn(Calc, u32, u32) -> u32, h: spec_fn(Wide, u64, u64) -> u64|
     #[trigger]
        crate::dsp::arith::computes(f, g) && #[trigger] crate::wide::computes(w, h) ==> {
            let filters = crate::dsp::multiband::crossovers_at_rest(
                crossover_designs(rate, g, h),
            );
            after.stage@ == (CompanderView {
                enabled: before.stage@.enabled,
                left: filters,
                right: filters,
                bands: before.stage@.bands.map_values(
                    |b: BandView|
                        crate::dsp::band::band_at_rest(b, compander_ahead(rate, g)),
                ),
            })
        }
}

/// A compander that took settings.
pub open spec fn compander_set<F: Fn(Calc, u32, u32) -> u32>(
    before: CompanderStage,
    params: CompanderState,
    f: F,
    after: CompanderStage,
) -> bool {
    &&& after.rate == before.rate
    &&& {
        let kept = before.applied matches Some(last)
            && crate::dsp::compander::same_settings(last, params);
        &&& after.applied == (if kept {
            before.applied
        } else {
            Some(params)
        })
        &&& forall|g: spec_fn(Calc, u32, u32) -> u32| #[trigger]
            crate::dsp::arith::computes(f, g) ==> after.stage@ == (CompanderView {
                enabled: params.enabled,
                bands: if kept {
                    before.stage@.bands
                } else {
                    before.stage@.bands.map_values(
                        |b: BandView| band_set(b, params, before.rate, g),
                    )
                },
                ..before.stage@
            })
    }
}

/// A compander in a format, before it took any settings.
pub open spec fn compander_fresh<F: Fn(Calc, u32, u32) -> u32, W: Fn(Wide, u64, u64) -> u64>(
    rate: u32,
    f: F,
    w: W,
    r: CompanderStage,
) -> bool {
    &&& r.rate == rate
    &&& r.applied is None
    &&& forall|g: spec_fn(Calc, u32, u32) -> u32, h: spec_fn(Wide, u64, u64) -> u64|
     #[trigger]
        crate::dsp::arith::computes(f, g) && #[trigger] crate::wide::computes(w, h) ==> {
            let filters = crate::dsp::multiband::crossovers_at_rest(
                crossover_designs(rate, g, h),
            );
            let fresh: BandView = crate::dsp::band::band_at_rest(
                band_set(
                    BandView {
                        curve: crate::dsp::tuning::curve_of(crate::types::fresh_compander()),
                        attack: 0,
                        release: 0,
                        declick: 0,
                        makeup: 0,
                        level: 0,
                        gain_db: 0,
                        gain: 0,
                        left: 0,
                        held: Seq::empty(),
                    },
                    crate::types::fresh_compander(),
                    rate,
                    g,
                ),
                compander_ahead(rate, g),
            );
            r.stage@ == (CompanderView {
                enabled: false,
                left: filters,
                right: filters,
                bands: Seq::new(10, |i: int| fresh),
            })
        }
}

impl CompanderStage {
    /// A compander that is off, with bands that are set as in a fresh engine.
    pub fn new<F: Fn(Calc, u32, u32) -> u32, W: Fn(Wide, u64, u64) -> u64>(
        rate: u32,
        f: &F,
        w: &W,
    ) -> (r: CompanderStage)
        requires
            crate::float_bits::at_most(LEAST_RATE, rate),
            crate::dsp::arith::callable(*f),
            crate::wide::callable(*w),
        ensures
            r.stage.wf(),
            compander_fresh(rate, *f, *w, r),
    {
        let state = CompanderState::default();
        let filters: Vec<Coeffs> = crossovers(rate, f, w);
        let speeds = compander_speeds(&state, rate, f);
        let makeup: u32 = db_to_lin(state.makeup_db, f);
        let ahead: usize = lookahead_samples(rate, f);
        let stage = Compander::new(&filters, compander_curve(&state), speeds, makeup, ahead);
        let ghost first = stage@.bands[0];
        assert(stage@.bands =~= Seq::new(10, |i: int| first));
        CompanderStage { rate, applied: None, stage }
    }

    /// Comes to rest in another format. The next settings are taken in any case.
    pub fn prepare<F: Fn(Calc, u32, u32) -> u32, W: Fn(Wide, u64, u64) -> u64>(
        &mut self,
        rate: u32,
        f: &F,
        w: &W,
    )
        requires
            old(self).stage.wf(),
            crate::float_bits::at_most(LEAST_RATE, rate),
            crate::dsp::arith::callable(*f),
            crate::wide::callable(*w),
        ensures
            final(self).stage.wf(),
            compander_prepared(*old(self), rate, *f, *w, *final(self)),
    {
        let filters: Vec<Coeffs> = crossovers(rate, f, w);
        let ahead: usize = lookahead_samples(rate, f);
        self.rate = rate;
        self.applied = None;
        self.stage.prepare(&filters, ahead);
    }

    /// Takes settings; the bands are set again where they differ from the last ones.
    pub fn set_params<F: Fn(Calc, u32, u32) -> u32>(&mut self, params: &CompanderState, f: &F)
        requires
            old(self).stage.wf(),
            crate::dsp::arith::callable(*f),
        ensures
            final(self).stage.wf(),
            compander_set(*old(self), *params, *f, *final(self)),
    {
        self.stage.set_enabled(params.enabled);
        if must_apply(self.applied, *params) {
            let ghost before = self.stage@.bands;
            let speeds = compander_speeds(params, self.rate, f);
            let makeup: u32 = db_to_lin(params.makeup_db, f);
            self.stage.set_bands(compander_curve(params), speeds, makeup);
            self.applied = Some(*params);
            assert forall|g: spec_fn(Calc, u32, u32) -> u32| #[trigger]
                crate::dsp::arith::computes(*f, g) implies self.stage@.bands == before.map_values(
                |b: BandView| band_set(b, *params, old(self).rate, g),
            ) by {
                assert(self.stage@.bands =~= before.map_values(
                    |b: BandView| band_set(b, *params, old(self).rate, g),
                ));
            }
        }
    }
}

/// The settings of the saturation: drive and makeup belong together.
pub open spec fn saturation_set(
    enabled: bool,
    drive: u32,
    mix: u32,
    g: spec_fn(Calc, u32, u32) -> u32,
) -> SaturationSettings {
    let driven = crate::dsp::tuning::drive_of(drive, g);
    SaturationSettings {
        enabled,
        drive: driven,
        mix,
        makeup: crate::dsp::tuning::makeup_of(driven, g),
    }
}

/// The filters of an oversampler, by phases, with nothing in memory.
pub open spec fn oversampler_at_rest(h: spec_fn(Wide, u64, u64) -> u64) -> OversampleView {
    OversampleView {
        up_taps: Seq::new(
            136,
            |slot: int|
                crate::wide::narrowed(
                    h(
                        Wide::Mul,
                        crate::dsp::design::unit_tap(crate::dsp::oversample::tap_at(slot), h),
                        FOUR_WIDE,
                    ),
                    h,
                ),
        ),
        down_taps: Seq::new(
            136,
            |slot: int|
                crate::wide::narrowed(
                    crate::dsp::design::unit_tap(crate::dsp::oversample::tap_at(slot), h),
                    h,
                ),
        ),
        low: crate::dsp::oversample::quiet_phase(),
        high: Seq::new(4, |p: int| crate::dsp::oversample::quiet_phase()),
    }
}

/// A channel of the saturation at rest.
pub open spec fn side_at_rest(h: spec_fn(Wide, u64, u64) -> u64) -> SideView {
    SideView {
        over: oversampler_at_rest(h),
        dc: DcBlocker { x: 0, y: 0 },
        dry: Seq::new(33, |i: int| 0u32),
        dry_delay: 33,
    }
}

fn fresh_side<W: Fn(Wide, u64, u64) -> u64>(w: &W) -> (r: Side)
    requires
        crate::wide::callable(*w),
    ensures
        r.wf(),
        forall|h: spec_fn(Wide, u64, u64) -> u64| #[trigger]
            crate::wide::computes(*w, h) ==> r@ == side_at_rest(h),
{
    let (up, down) = oversampling_taps(w);
    let over = Oversampler4x::new(&up, &down);
    assert forall|h: spec_fn(Wide, u64, u64) -> u64| #[trigger]
        crate::wide::computes(*w, h) implies over@ == oversampler_at_rest(h) by {
        assert forall|slot: int| 0 <= slot < 136 implies #[trigger] over@.up_taps[slot]
            == oversampler_at_rest(h).up_taps[slot] && #[trigger] over@.down_taps[slot]
            == oversampler_at_rest(h).down_taps[slot] by {
            crate::dsp::oversample::law_every_tap_has_one_place(slot);
            let tap = crate::dsp::oversample::tap_at(slot);
            assert(up@[tap] == up@[tap] && down@[tap] == down@[tap]);
        }
        assert(over@.up_taps =~= oversampler_at_rest(h).up_taps);
        assert(over@.down_taps =~= oversampler_at_rest(h).down_taps);
    }
    Side::new(over)
}

/// The bits of 0.3, the drive of a fresh engine.
pub const FRESH_DRIVE: u32 = 0x3e99_999a;

/// The saturation with the settings that it was given.
pub struct SaturationStage {
    pub drive: u32,
    pub mix: u32,
    /// What drive and mix come to.
    pub settings: SaturationSettings,
    pub stage: Saturation,
}

impl SaturationStage {
    /// A saturation that is off.
    pub fn new<F: Fn(Calc, u32, u32) -> u32, W: Fn(Wide, u64, u64) -> u64>(f: &F, w: &W) -> (r:
        SaturationStage)
        requires
            crate::dsp::arith::callable(*f),
            crate::wide::callable(*w),
        ensures
            r.stage.wf(),
            r.drive == FRESH_DRIVE,
            r.mix == ONE_BITS,
            r.stage.settings() == r.settings,
            forall|g: spec_fn(Calc, u32, u32) -> u32| #[trigger]
                crate::dsp::arith::computes(*f, g) ==> r.settings == saturation_set(
                    false,
                    FRESH_DRIVE,
                    ONE_BITS,
                    g,
                ),
            forall|h: spec_fn(Wide, u64, u64) -> u64| #[trigger]
                crate::wide::computes(*w, h) ==> r.stage.left() == side_at_rest(h)
                    && r.stage.right() == side_at_rest(h),
    {
        let (drive, makeup) = compute_drive_makeup(FRESH_DRIVE, f);
        let settings = SaturationSettings { enabled: false, drive, mix: ONE_BITS, makeup };
        let stage = Saturation::new(settings, fresh_side(w), fresh_side(w));
        SaturationStage { drive: FRESH_DRIVE, mix: ONE_BITS, settings, stage }
    }

    /// Comes to rest, with the same settings.
    pub fn prepare<W: Fn(Wide, u64, u64) -> u64>(&mut self, w: &W)
        requires
            crate::wide::callable(*w),
        ensures
            final(self).stage.wf(),
            final(self).drive == old(self).drive,
            final(self).mix == old(self).mix,
            final(self).settings == old(self).settings,
            final(self).stage.settings() == old(self).stage.settings(),
            forall|h: spec_fn(Wide, u64, u64) -> u64| #[trigger]
                crate::wide::computes(*w, h) ==> final(self).stage.left() == side_at_rest(h)
                    && final(self).stage.right() == side_at_rest(h),
    {
        self.stage.prepare(fresh_side(w), fresh_side(w));
    }

    /// Takes settings; drive and mix count where they have moved.
    pub fn set_params<F: Fn(Calc, u32, u32) -> u32>(&mut self, params: &SaturationState, f: &F)
        requires
            old(self).stage.wf(),
            crate::dsp::arith::callable(*f),
        ensures
            final(self).stage.wf(),
            final(self).stage.left() == old(self).stage.left(),
            final(self).stage.right() == old(self).stage.right(),
            final(self).stage.settings() == (SaturationSettings {
                mix: crate::dsp::arith::unit(final(self).settings.mix),
                ..final(self).settings
            }),
            forall|g: spec_fn(Calc, u32, u32) -> u32| #[trigger]
                crate::dsp::arith::computes(*f, g) ==> {
                    let driven = moved(old(self).drive, params.drive, g);
                    let mixed = moved(old(self).mix, params.mix, g);
                    let fresh = saturation_set(params.enabled, params.drive, params.mix, g);
                    &&& final(self).drive == (if driven {
                        params.drive
                    } else {
                        old(self).drive
                    })
                    &&& final(self).mix == (if mixed {
                        params.mix
                    } else {
                        old(self).mix
                    })
                    &&& final(self).settings == (SaturationSettings {
                        enabled: params.enabled,
                        drive: if driven {
                            fresh.drive
                        } else {
                            old(self).settings.drive
                        },
                        makeup: if driven {
                            fresh.makeup
                        } else {
                            old(self).settings.makeup
                        },
                        mix: if mixed {
                            params.mix
                        } else {
                            old(self).settings.mix
                        },
                    })
                },
    {
        self.settings.enabled = params.enabled;
        if has_moved(self.drive, params.drive, f) {
            let (drive, makeup) = compute_drive_makeup(params.drive, f);
            self.drive = params.drive;
            self.settings.drive = drive;
            self.settings.makeup = makeup;
        }
        if has_moved(self.mix, params.mix, f) {
            self.mix = params.mix;
            self.settings.mix = params.mix;
        }
        self.stage.set_params(self.settings);
    }
}

/// Silence, for a delay in samples.
pub open spec fn quiet_line(delay: int) -> Seq<u32> {
    Seq::new(
        (if delay < 1 {
            2
        } else {
            delay + 1
        }) as nat,
        |i: int| 0u32,
    )
}

/// A loudspeaker at rest.
pub open spec fn speaker_at_rest(speaker: Speaker, setup: SpeakerSetup) -> SpeakerView {
    SpeakerView {
        speaker,
        feed_gain: setup.feed_gain,
        past: quiet_line(setup.delay as int),
        delay: setup.delay as int,
        shadow: 0,
        keep: setup.keep,
        far_gain: setup.far_gain,
    }
}

/// The ring of loudspeakers at rest in a format, with settings.
pub open spec fn ring_at_rest(
    enabled: bool,
    intensity: u32,
    subwoofer: u32,
    on: SurroundSpeakers,
    rate: u32,
    g: spec_fn(Calc, u32, u32) -> u32,
) -> SurroundView {
    let speakers = Seq::new(
        6,
        |k: int|
            speaker_at_rest(
                crate::dsp::spatial::speaker_table(on)[k],
                crate::dsp::tuning::speakers_of(rate, g)[k],
            ),
    );
    let late = crate::dsp::tuning::samples_in(REAR_DELAY_S, rate, g);
    SurroundView {
        enabled,
        intensity,
        subwoofer,
        wet_norm: crate::dsp::surround::ring_norm(speakers, g),
        speakers,
        rear: quiet_line(late),
        rear_delay: late,
        lfe: 0,
        lfe_keep: crate::dsp::tuning::kept_at(LFE_HZ, rate, g),
    }
}

fn fresh_ring<F: Fn(Calc, u32, u32) -> u32>(rate: u32, on: SurroundSpeakers, f: &F) -> (r: Surround3D)
    requires
        crate::dsp::arith::callable(*f),
    ensures
        r.wf(),
        forall|g: spec_fn(Calc, u32, u32) -> u32| #[trigger]
            crate::dsp::arith::computes(*f, g) ==> r@ == ring_at_rest(false, 0, 0, on, rate, g),
{
    let setups: Vec<SpeakerSetup> = speaker_setups(rate, f);
    let late: usize = delay_in_samples(REAR_DELAY_S, rate, f);
    let keep: u32 = filter_keep(LFE_HZ, rate, f);
    let r = Surround3D::new(&setups, on, late, keep, f);
    assert forall|g: spec_fn(Calc, u32, u32) -> u32| #[trigger]
        crate::dsp::arith::computes(*f, g) implies r@ == ring_at_rest(
        false,
        0,
        0,
        on,
        rate,
        g,
    ) by {
        let want = ring_at_rest(false, 0, 0, on, rate, g);
        assert forall|k: int| 0 <= k < 6 implies #[trigger] r@.speakers[k] == want.speakers[k] by {
            assert(r@.speakers[k].past =~= want.speakers[k].past);
        }
        assert(r@.speakers =~= want.speakers);
        assert(r@.rear =~= want.rear);
    }
    r
}

/// The ring of loudspeakers with the settings that it was given.
pub struct SurroundStage {
    pub state: Surround3DState,
    pub stage: Surround3D,
}

/// A ring that was made ready for a format.
pub open spec fn surround_prepared<F: Fn(Calc, u32, u32) -> u32>(
    before: SurroundStage,
    rate: u32,
    f: F,
    after: SurroundStage,
) -> bool {
    &&& after.state == before.state
    &&& forall|g: spec_fn(Calc, u32, u32) -> u32| #[trigger]
        crate::dsp::arith::computes(f, g) ==> after.stage@ == ring_at_rest(
            before.state.enabled,
            crate::dsp::arith::unit(before.state.intensity),
            crate::dsp::arith::unit(before.state.subwoofer),
            before.state.speakers,
            rate,
            g,
        )
}

/// A ring that took settings.
pub open spec fn surround_set<F: Fn(Calc, u32, u32) -> u32>(
    before: SurroundStage,
    params: Surround3DState,
    f: F,
    after: SurroundStage,
) -> bool {
    &&& after.state == params
    &&& forall|g: spec_fn(Calc, u32, u32) -> u32| #[trigger]
        crate::dsp::arith::computes(f, g) ==> {
            let speakers = crate::dsp::surround::switched(
                before.stage@.speakers,
                params.speakers,
            );
            after.stage@ == (SurroundView {
                enabled: params.enabled,
                intensity: crate::dsp::arith::unit(params.intensity),
                subwoofer: crate::dsp::arith::unit(params.subwoofer),
                wet_norm: crate::dsp::surround::ring_norm(speakers, g),
                speakers,
                ..before.stage@
            })
        }
}

/// A ring in a format, before it took any settings.
pub open spec fn surround_fresh<F: Fn(Calc, u32, u32) -> u32>(
    rate: u32,
    f: F,
    r: SurroundStage,
) -> bool {
    &&& r.state == (Surround3DState {
        enabled: false,
        intensity: 0,
        subwoofer: 0,
        speakers: crate::types::all_speakers(),
    })
    &&& forall|g: spec_fn(Calc, u32, u32) -> u32| #[trigger]
        crate::dsp::arith::computes(f, g) ==> r.stage@ == ring_at_rest(
            false,
            0,
            0,
            crate::types::all_speakers(),
            rate,
            g,
        )
}

impl SurroundStage {
    /// A ring that is off.
    pub fn new<F: Fn(Calc, u32, u32) -> u32>(rate: u32, f: &F) -> (r: SurroundStage)
        requires
            crate::dsp::arith::callable(*f),
        ensures
            r.stage.wf(),
            surround_fresh(rate, *f, r),
    {
        let speakers = SurroundSpeakers::default();
        let state = Surround3DState { enabled: false, intensity: 0, subwoofer: 0, speakers };
        SurroundStage { state, stage: fresh_ring(rate, speakers, f) }
    }

    /// Starts anew in another format, with the same settings.
    pub fn prepare<F: Fn(Calc, u32, u32) -> u32>(&mut self, rate: u32, f: &F)
        requires
            crate::dsp::arith::callable(*f),
        ensures
            final(self).stage.wf(),
            surround_prepared(*old(self), rate, *f, *final(self)),
    {
        let s = self.state;
        self.stage = fresh_ring(rate, s.speakers, f);
        let ghost before = self.stage@;
        self.stage.set_params(s.enabled, s.intensity, s.subwoofer, s.speakers, f);
        assert forall|g: spec_fn(Calc, u32, u32) -> u32| #[trigger]
            crate::dsp::arith::computes(
            *f,
            g,
        ) implies crate::dsp::surround::switched(before.speakers, s.speakers)
            == before.speakers by {
            assert(crate::dsp::surround::switched(before.speakers, s.speakers)
                =~= before.speakers);
        }
    }

    /// Takes settings.
    pub fn set_params<F: Fn(Calc, u32, u32) -> u32>(&mut self, params: &Surround3DState, f: &F)
        requires
            old(self).stage.wf(),
            crate::dsp::arith::callable(*f),
        ensures
            final(self).stage.wf(),
            surround_set(*old(self), *params, *f, *final(self)),
    {
        self.state = *params;
        self.stage.set_params(
            params.enabled,
            params.intensity,
            params.subwoofer,
            params.speakers,
            f,
        );
    }
}

/// The bits of 0.84, 0.2 and 0.8: the feedback of a comb before it is tuned, its damping and the
/// rest.
pub const COMB_FEEDBACK: u32 = 0x3f57_0a3d;

pub const COMB_DAMP: u32 = 0x3e4c_cccd;

pub const COMB_REST: u32 = 0x3f4c_cccd;

/// The bits of one half, the feedback of a diffuser before it is tuned.
pub const DIFFUSER_FEEDBACK: u32 = 0x3f00_0000;

/// Silence of at least one sample.
pub open spec fn quiet(n: int) -> Seq<u32> {
    Seq::new(crate::dsp::tuning::one_or_more(n) as nat, |i: int| 0u32)
}

/// A comb at rest, for a number of samples.
pub open spec fn comb_at_rest(n: int) -> CombView {
    CombView {
        past: quiet(n),
        delay: crate::dsp::delay::settable(n / 2, quiet(n).len()),
        store: 0,
        feedback: COMB_FEEDBACK,
        damp: COMB_DAMP,
        rest: COMB_REST,
        flushes: true,
    }
}

/// A diffuser at rest, for a number of samples.
pub open spec fn diffuser_at_rest(n: int) -> AllpassView {
    AllpassView {
        past: quiet(n),
        delay: crate::dsp::tuning::one_or_more(n),
        feedback: DIFFUSER_FEEDBACK,
        flushes: true,
    }
}

/// One side of the room at rest in a format.
pub open spec fn tank_at_rest(left: bool, rate: u32, g: spec_fn(Calc, u32, u32) -> u32) -> TankView {
    TankView {
        combs: Seq::new(
            8,
            |i: int|
                comb_at_rest(
                    crate::dsp::tuning::scaled_length(
                        crate::dsp::tuning::room_lengths(left).0[i],
                        rate,
                        TWO_BITS,
                        g,
                    ) + 16,
                ),
        ),
        diffusers: Seq::new(
            4,
            |i: int|
                diffuser_at_rest(
                    crate::dsp::tuning::one_or_more(
                        crate::dsp::tuning::counted(
                            g(
                                Calc::Mul,
                                g(Calc::Whole, crate::dsp::tuning::room_lengths(left).1[i], 0),
                                g(Calc::Div, rate, REFERENCE_RATE),
                            ),
                            g,
                        ),
                    ),
                ),
        ),
    }
}

fn fresh_tank<F: Fn(Calc, u32, u32) -> u32>(left: bool, rate: u32, f: &F) -> (r: Tank)
    requires
        crate::dsp::arith::callable(*f),
    ensures
        r.wf(),
        r@.combs.len() == 8,
        r@.diffusers.len() == 4,
        forall|g: spec_fn(Calc, u32, u32) -> u32| #[trigger]
            crate::dsp::arith::computes(*f, g) ==> r@ == tank_at_rest(left, rate, g),
{
    let plan = room_plan(left, rate, f);
    let mut combs: Vec<Comb> = Vec::new();
    while combs.len() < 8
        invariant
            combs@.len() <= 8,
            plan.combs@.len() == 8,
            forall|k: int|
                0 <= k < combs@.len() ==> (#[trigger] combs@[k]).wf() && combs@[k]@ == comb_at_rest(
                    plan.combs@[k] as int,
                ),
        decreases 8 - combs@.len(),
    {
        let n: usize = plan.combs[combs.len()];
        let comb = Comb::new(n, n / 2, COMB_FEEDBACK, COMB_DAMP, COMB_REST, true);
        assert(comb@.past =~= quiet(n as int));
        combs.push(comb);
    }
    let mut diffusers: Vec<Allpass> = Vec::new();
    while diffusers.len() < 4
        invariant
            diffusers@.len() <= 4,
            plan.diffusers@.len() == 4,
            forall|k: int|
                0 <= k < diffusers@.len() ==> (#[trigger] diffusers@[k]).wf() && diffusers@[k]@
                    == diffuser_at_rest(plan.diffusers@[k] as int),
        decreases 4 - diffusers@.len(),
    {
        let n: usize = plan.diffusers[diffusers.len()];
        let diffuser = Allpass::new(n, DIFFUSER_FEEDBACK, true);
        assert(diffuser@.past =~= quiet(n as int));
        diffusers.push(diffuser);
    }
    let tank = Tank::new(combs, diffusers);
    assert forall|g: spec_fn(Calc, u32, u32) -> u32| #[trigger]
        crate::dsp::arith::computes(*f, g) implies tank@ == tank_at_rest(left, rate, g) by {
        let want = tank_at_rest(left, rate, g);
        assert forall|k: int| 0 <= k < 8 implies #[trigger] tank@.combs[k] == want.combs[k] by {
            assert(plan.combs@[k] == plan.combs@[k]);
            assert(combs@[k]@ == comb_at_rest(plan.combs@[k] as int));
        }
        assert forall|k: int| 0 <= k < 4 implies #[trigger] tank@.diffusers[k]
            == want.diffusers[k] by {
            assert(plan.diffusers@[k] == plan.diffusers@[k]);
            assert(diffusers@[k]@ == diffuser_at_rest(plan.diffusers@[k] as int));
        }
        assert(tank@.combs =~= want.combs);
        assert(tank@.diffusers =~= want.diffusers);
    }
    tank
}

/// The bits of 0.86, of 0.22 and of the rest: how the combs of the small reverb feed back and damp.
pub const REVERB_FEEDBACK: u32 = 0x3f5c_28f6;

pub const REVERB_DAMP: u32 = 0x3e61_47ae;

pub const REVERB_REST: u32 = 0x3f47_ae14;

/// A comb of the small reverb at rest: it is as late as it is long.
pub open spec fn reverb_comb(n: int) -> CombView {
    CombView {
        past: quiet(n),
        delay: crate::dsp::delay::settable(n, quiet(n).len()),
        store: 0,
        feedback: REVERB_FEEDBACK,
        damp: REVERB_DAMP,
        rest: REVERB_REST,
        flushes: false,
    }
}

/// One side of the small reverb at rest in a format. The right side is a little longer than the
/// left one.
pub open spec fn reverb_side(left: bool, rate: u32, g: spec_fn(Calc, u32, u32) -> u32) -> TankView {
    let spread = crate::dsp::tuning::reverb_spread(left, rate, g);
    let lengths = crate::dsp::tuning::reverb_lengths();
    TankView {
        combs: Seq::new(
            4,
            |i: int|
                reverb_comb(
                    crate::dsp::tuning::rounded_length(lengths.0[i], rate, g) + spread,
                ),
        ),
        diffusers: Seq::new(
            2,
            |i: int|
                AllpassView {
                    flushes: false,
                    ..diffuser_at_rest(
                        crate::dsp::tuning::rounded_length(lengths.1[i], rate, g) + spread,
                    )
                },
        ),
    }
}

fn fresh_reverb_side<F: Fn(Calc, u32, u32) -> u32>(left: bool, rate: u32, f: &F) -> (r: Tank)
    requires
        crate::dsp::arith::callable(*f),
    ensures
        r.wf(),
        forall|g: spec_fn(Calc, u32, u32) -> u32| #[trigger]
            crate::dsp::arith::computes(*f, g) ==> r@ == reverb_side(left, rate, g),
{
    let plan = reverb_plan(left, rate, f);
    let mut combs: Vec<Comb> = Vec::new();
    while combs.len() < 4
        invariant
            combs@.len() <= 4,
            plan.combs@.len() == 4,
            forall|k: int|
                0 <= k < combs@.len() ==> (#[trigger] combs@[k]).wf() && combs@[k]@ == reverb_comb(
                    plan.combs@[k] as int,
                ),
        decreases 4 - combs@.len(),
    {
        let n: usize = plan.combs[combs.len()];
        let comb = Comb::new(n, n, REVERB_FEEDBACK, REVERB_DAMP, REVERB_REST, false);
        assert(comb@.past =~= quiet(n as int));
        combs.push(comb);
    }
    let mut diffusers: Vec<Allpass> = Vec::new();
    while diffusers.len() < 2
        invariant
            diffusers@.len() <= 2,
            plan.diffusers@.len() == 2,
            forall|k: int|
                0 <= k < diffusers@.len() ==> (#[trigger] diffusers@[k]).wf() && diffusers@[k]@ == (
                AllpassView { flushes: false, ..diffuser_at_rest(plan.diffusers@[k] as int) }),
        decreases 2 - diffusers@.len(),
    {
        let n: usize = plan.diffusers[diffusers.len()];
        let diffuser = Allpass::new(n, DIFFUSER_FEEDBACK, false);
        assert(diffuser@.past =~= quiet(n as int));
        diffusers.push(diffuser);
    }
    let tank = Tank::new(combs, diffusers);
    assert forall|g: spec_fn(Calc, u32, u32) -> u32| #[trigger]
        crate::dsp::arith::computes(*f, g) implies tank@ == reverb_side(left, rate, g) by {
        let want = reverb_side(left, rate, g);
        assert forall|k: int| 0 <= k < 4 implies #[trigger] tank@.combs[k] == want.combs[k] by {
            assert(plan.combs@[k] == plan.combs@[k]);
            assert(combs@[k]@ == reverb_comb(plan.combs@[k] as int));
        }
        assert forall|k: int| 0 <= k < 2 implies #[trigger] tank@.diffusers[k]
            == want.diffusers[k] by {
            assert(plan.diffusers@[k] == plan.diffusers@[k]);
            assert(diffusers@[k].wf());
        }
        assert(tank@.combs =~= want.combs);
        assert(tank@.diffusers =~= want.diffusers);
    }
    tank
}

/// The small reverb in a format.
pub fn new_reverb<F: Fn(Calc, u32, u32) -> u32>(rate: u32, f: &F) -> (r: RoomReverb)
    requires
        crate::dsp::arith::callable(*f),
    ensures
        r.wf(),
        forall|g: spec_fn(Calc, u32, u32) -> u32| #[trigger]
            crate::dsp::arith::computes(*f, g) ==> r.left@ == reverb_side(true, rate, g)
                && r.right@ == reverb_side(false, rate, g),
{
    RoomReverb { left: fresh_reverb_side(true, rate, f), right: fresh_reverb_side(false, rate, f) }
}

/// What a room is tuned to.
#[derive(Debug, Clone, Copy, PartialEq, Eq, Structural)]
pub struct RoomTune {
    pub room_size: u32,
    pub decay: u32,
    pub damping: u32,
    pub diffusion: u32,
    /// In milliseconds.
    pub pre_delay: u32,
}

/// The bits of 0.4, 0.4, 0.45, 0.55 and 8: how a fresh room is tuned.
pub open spec fn fresh_tune() -> RoomTune {
    RoomTune {
        room_size: 0x3ecc_cccd,
        decay: 0x3ecc_cccd,
        damping: 0x3ee6_6666,
        diffusion: 0x3f0c_cccd,
        pre_delay: 0x4100_0000,
    }
}

/// A room that was tuned; it keeps its memory.
pub open spec fn room_tuned(
    v: RoomView,
    tune: RoomTune,
    rate: u32,
    g: spec_fn(Calc, u32, u32) -> u32,
) -> RoomView {
    let feedback = crate::dsp::tuning::from_zero(
        g(
            Calc::Add,
            g(Calc::Mul, crate::dsp::arith::unit(tune.decay), crate::dsp::tuning::DECAY_SCALE),
            crate::dsp::tuning::DECAY_LEAST,
        ),
        crate::dsp::tuning::DECAY_MOST,
    );
    let damp = g(
        Calc::Mul,
        crate::dsp::arith::unit(tune.damping),
        crate::dsp::tuning::DAMP_SCALE,
    );
    let rest = g(Calc::Sub, ONE_BITS, damp);
    let diffusion = g(
        Calc::Add,
        crate::dsp::tuning::DIFFUSION_LEAST,
        g(
            Calc::Mul,
            crate::dsp::arith::unit(tune.diffusion),
            crate::dsp::tuning::DIFFUSION_SCALE,
        ),
    );
    let late = crate::dsp::tuning::from_zero(tune.pre_delay, LONGEST_PRE_DELAY);
    let left = Seq::new(
        8,
        |i: int| crate::dsp::tuning::comb_delay(true, i, tune.room_size, rate, g) as usize,
    );
    let right = Seq::new(
        8,
        |i: int| crate::dsp::tuning::comb_delay(false, i, tune.room_size, rate, g) as usize,
    );
    RoomView {
        pre_delay: crate::dsp::tuning::counted(
            g(Calc::Mul, g(Calc::Mul, late, crate::dsp::tuning::MILLI_BITS), rate),
            g,
        ),
        left: crate::dsp::room::tank_tuned(v.left, left, feedback, damp, rest, diffusion),
        right: crate::dsp::room::tank_tuned(v.right, right, feedback, damp, rest, diffusion),
        ..v
    }
}

/// A setting of the room has moved.
pub open spec fn room_moved(
    tune: RoomTune,
    params: RoomState,
    g: spec_fn(Calc, u32, u32) -> u32,
) -> bool {
    ||| moved(tune.room_size, params.room_size, g)
    ||| moved(tune.decay, params.decay, g)
    ||| moved(tune.damping, params.damping, g)
    ||| moved(tune.diffusion, params.diffusion, g)
    ||| moved(tune.pre_delay, params.pre_delay, g)
}

/// What settings tune a room to: each is cut to its range.
pub open spec fn tune_of(params: RoomState) -> RoomTune {
    RoomTune {
        room_size: crate::dsp::arith::unit(params.room_size),
        decay: crate::dsp::arith::unit(params.decay),
        damping: crate::dsp::arith::unit(params.damping),
        diffusion: crate::dsp::arith::unit(params.diffusion),
        pre_delay: crate::dsp::tuning::from_zero(params.pre_delay, LONGEST_PRE_DELAY),
    }
}

/// The room in a format.
pub struct RoomStage {
    pub rate: u32,
    pub tune: RoomTune,
    pub stage: RoomEffects,
}

/// How long the signal in front of the room is kept.
pub open spec fn room_reach(rate: u32, g: spec_fn(Calc, u32, u32) -> u32) -> int {
    crate::dsp::tuning::counted(g(Calc::Mul, rate, crate::dsp::tuning::QUARTER_BITS), g) + 16
}

/// A room that was made ready for a format.
pub open spec fn room_prepared<F: Fn(Calc, u32, u32) -> u32>(
    before: RoomStage,
    rate: u32,
    f: F,
    after: RoomStage,
) -> bool {
    &&& after.rate == rate
    &&& after.tune == before.tune
    &&& forall|g: spec_fn(Calc, u32, u32) -> u32| #[trigger]
        crate::dsp::arith::computes(f, g) ==> after.stage@ == room_tuned(
            RoomView {
                left: tank_at_rest(true, rate, g),
                right: tank_at_rest(false, rate, g),
                left_past: quiet(room_reach(rate, g)),
                right_past: quiet(room_reach(rate, g)),
                ..before.stage@
            },
            before.tune,
            rate,
            g,
        )
}

/// A room that took settings.
pub open spec fn room_set<F: Fn(Calc, u32, u32) -> u32>(
    before: RoomStage,
    params: RoomState,
    f: F,
    after: RoomStage,
) -> bool {
    &&& after.rate == before.rate
    &&& forall|g: spec_fn(Calc, u32, u32) -> u32| #[trigger]
        crate::dsp::arith::computes(f, g) ==> {
            let again = room_moved(before.tune, params, g);
            let set = RoomView {
                enabled: params.enabled,
                wet: crate::dsp::arith::unit(params.wet_dry),
                ..before.stage@
            };
            &&& after.tune == (if again {
                tune_of(params)
            } else {
                before.tune
            })
            &&& after.stage@ == (if again {
                room_tuned(set, tune_of(params), before.rate, g)
            } else {
                set
            })
        }
}

/// A room in a format, before it took any settings.
pub open spec fn room_fresh<F: Fn(Calc, u32, u32) -> u32>(
    rate: u32,
    f: F,
    r: RoomStage,
) -> bool {
    &&& r.rate == rate
    &&& r.tune == fresh_tune()
    &&& forall|g: spec_fn(Calc, u32, u32) -> u32| #[trigger]
        crate::dsp::arith::computes(f, g) ==> r.stage@ == room_tuned(
            RoomView {
                enabled: false,
                wet: 0,
                pre_delay: 0,
                left: tank_at_rest(true, rate, g),
                right: tank_at_rest(false, rate, g),
                left_past: quiet(room_reach(rate, g)),
                right_past: quiet(room_reach(rate, g)),
            },
            fresh_tune(),
            rate,
            g,
        )
}

impl RoomStage {
    /// Every side has eight combs.
    pub open spec fn wf(&self) -> bool {
        &&& self.stage.wf()
        &&& self.stage@.left.combs.len() == 8
        &&& self.stage@.right.combs.len() == 8
    }

    /// A room that is off.
    pub fn new<F: Fn(Calc, u32, u32) -> u32>(rate: u32, f: &F) -> (r: RoomStage)
        requires
            crate::dsp::arith::callable(*f),
        ensures
            r.wf(),
            room_fresh(rate, *f, r),
    {
        let tune = RoomTune {
            room_size: 0x3ecc_cccd,
            decay: 0x3ecc_cccd,
            damping: 0x3ee6_6666,
            diffusion: 0x3f0c_cccd,
            pre_delay: 0x4100_0000,
        };
        let cap: usize = pre_delay_room(rate, f);
        let stage = RoomEffects::new(fresh_tank(true, rate, f), fresh_tank(false, rate, f), cap, 0);
        assert(stage@.left_past =~= quiet(cap as int));
        assert(stage@.right_past =~= quiet(cap as int));
        let mut r = RoomStage { rate, tune, stage };
        r.retune(f);
        r
    }

    /// Tunes the room to its settings.
    fn retune<F: Fn(Calc, u32, u32) -> u32>(&mut self, f: &F)
        requires
            old(self).wf(),
            crate::dsp::arith::callable(*f),
        ensures
            final(self).wf(),
            final(self).rate == old(self).rate,
            final(self).tune == old(self).tune,
            forall|g: spec_fn(Calc, u32, u32) -> u32| #[trigger]
                crate::dsp::arith::computes(*f, g) ==> final(self).stage@ == room_tuned(
                    old(self).stage@,
                    old(self).tune,
                    old(self).rate,
                    g,
                ),
    {
        let state = RoomState {
            enabled: false,
            room_size: self.tune.room_size,
            decay: self.tune.decay,
            damping: self.tune.damping,
            pre_delay: self.tune.pre_delay,
            diffusion: self.tune.diffusion,
            wet_dry: 0,
            active_preset_id: None,
        };
        let r = room_tuning(&state, self.rate, f);
        let ghost tune = self.tune;
        let ghost rate = self.rate;
        assert forall|g: spec_fn(Calc, u32, u32) -> u32| #[trigger]
            crate::dsp::arith::computes(*f, g) implies r.left@ == Seq::new(
            8,
            |i: int| crate::dsp::tuning::comb_delay(true, i, tune.room_size, rate, g) as usize,
        ) && r.right@ == Seq::new(
            8,
            |i: int| crate::dsp::tuning::comb_delay(false, i, tune.room_size, rate, g) as usize,
        ) by {
            assert forall|i: int| 0 <= i < 8 implies #[trigger] r.left@[i]
                == crate::dsp::tuning::comb_delay(true, i, tune.room_size, rate, g)
                && #[trigger] r.right@[i] == crate::dsp::tuning::comb_delay(
                false,
                i,
                tune.room_size,
                rate,
                g,
            ) by {}
            assert(r.left@ =~= Seq::new(
                8,
                |i: int| crate::dsp::tuning::comb_delay(true, i, tune.room_size, rate, g) as usize,
            ));
            assert(r.right@ =~= Seq::new(
                8,
                |i: int|
                    crate::dsp::tuning::comb_delay(false, i, tune.room_size, rate, g) as usize,
            ));
        }
        self.stage.retune(
            &r.left,
            &r.right,
            r.feedback,
            r.damp,
            r.rest,
            r.diffusion,
            r.pre_delay,
        );
    }

    /// Starts anew in another format, with the same settings.
    pub fn prepare<F: Fn(Calc, u32, u32) -> u32>(&mut self, rate: u32, f: &F)
        requires
            crate::dsp::arith::callable(*f),
        ensures
            final(self).wf(),
            room_prepared(*old(self), rate, *f, *final(self)),
    {
        let cap: usize = pre_delay_room(rate, f);
        self.rate = rate;
        self.stage.prepare(fresh_tank(true, rate, f), fresh_tank(false, rate, f), cap);
        assert(self.stage@.left_past =~= quiet(cap as int));
        assert(self.stage@.right_past =~= quiet(cap as int));
        self.retune(f);
    }

    /// Takes settings; the room is tuned again where one of them has moved.
    pub fn set_params<F: Fn(Calc, u32, u32) -> u32>(&mut self, params: &RoomState, f: &F)
        requires
            old(self).wf(),
            crate::dsp::arith::callable(*f),
        ensures
            final(self).wf(),
            room_set(*old(self), *params, *f, *final(self)),
    {
        self.stage.set_params(params.enabled, params.wet_dry);
        let t = self.tune;
        let size: bool = has_moved(t.room_size, params.room_size, f);
        let decay: bool = has_moved(t.decay, params.decay, f);
        let damping: bool = has_moved(t.damping, params.damping, f);
        let diffusion: bool = has_moved(t.diffusion, params.diffusion, f);
        let late: bool = has_moved(t.pre_delay, params.pre_delay, f);
        if size || decay || damping || diffusion || late {
            self.tune = RoomTune {
                room_size: to_unit(params.room_size),
                decay: to_unit(params.decay),
                damping: to_unit(params.damping),
                diffusion: to_unit(params.diffusion),
                pre_delay: cut_from_zero(params.pre_delay, LONGEST_PRE_DELAY),
            };
            self.retune(f);
        }
    }
}

/// Settings that are taken twice tune nothing the second time: gains, profiles and compander
/// settings are the same as themselves, unless a number in them is undefined.
pub proof fn law_unchanged_settings_tune_nothing(
    gains: Seq<u32>,
    profile: Seq<ParametricBand>,
    compander: CompanderState,
)
    requires
        gains.len() == 31,
        forall|i: int| 0 <= i < 31 ==> !crate::float_bits::undefined(#[trigger] gains[i]),
        forall|i: int|
            0 <= i < profile.len() ==> {
                &&& !crate::float_bits::undefined((#[trigger] profile[i]).freq)
                &&& !crate::float_bits::undefined(profile[i].gain)
                &&& !crate::float_bits::undefined(profile[i].q)
            },
        !crate::float_bits::undefined(compander.threshold_db),
        !crate::float_bits::undefined(compander.ratio),
        !crate::float_bits::undefined(compander.knee_db),
        !crate::float_bits::undefined(compander.attack_ms),
        !crate::float_bits::undefined(compander.release_ms),
        !crate::float_bits::undefined(compander.makeup_db),
        !crate::float_bits::undefined(compander.gate_db),
        !crate::float_bits::undefined(compander.expander_ratio),
    ensures
        same_gains(gains, gains),
        same_profile(profile, profile),
        crate::dsp::compander::same_settings(compander, compander),
{
}

/// Tuning a room changes neither whether it is on, nor its mix, nor the signal in front of it.
pub proof fn law_tuning_leaves_the_mix_alone(
    v: RoomView,
    tune: RoomTune,
    rate: u32,
    g: spec_fn(Calc, u32, u32) -> u32,
)
    ensures
        room_tuned(v, tune, rate, g).enabled == v.enabled,
        room_tuned(v, tune, rate, g).wet == v.wet,
        room_tuned(v, tune, rate, g).left_past == v.left_past,
        room_tuned(v, tune, rate, g).right_past == v.right_past,
{
}

} // verus!
