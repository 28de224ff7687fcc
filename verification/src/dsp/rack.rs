//! The effects of a device in the order in which they run, from the correction of the headphones to
//! the limiter.

use vstd::prelude::*;
use crate::dsp::arith::Calc;
use crate::dsp::bass::{BassChannel, BassSettings, Gain};
use crate::dsp::chain::Stage;
use crate::dsp::compander::CompanderMeter;
use crate::dsp::design::LEAST_RATE;
use crate::dsp::equalizer::FilterView;
use crate::dsp::impulse::{ImpulseStage, ImpulseView};
use crate::dsp::limiter::{Limiter, LimiterView};
use crate::dsp::multiband::CompanderView;
use crate::dsp::room::RoomView;
use crate::dsp::spatializer::{SpatialView, Spatializer};
use crate::dsp::stages::{
    new_limiter, new_spatializer, prepare_limiter, prepare_spatializer, set_gain, set_limiter,
    set_spatializer, BassStage, CompanderStage, EqStage, HeadphoneStage, RoomStage, SurroundStage,
};
use crate::dsp::surround::SurroundView;
use crate::float_bits::ONE_BITS;
use crate::types::EngineState;
use crate::wide::Wide;

verus! {

/// What the effects of a device are set to and remember.
pub struct RackView {
    pub power: bool,
    pub headphone: FilterView,
    pub eq: FilterView,
    pub bass: (BassSettings, Seq<BassChannel>),
    pub spatializer: SpatialView,
    pub surround: SurroundView,
    pub room: RoomView,
    pub convolver: ImpulseView,
    pub compander: CompanderView,
    /// How much the compander took away in each band.
    pub meter: Seq<u32>,
    pub gain: u32,
    pub limiter: LimiterView,
}

/// The correction of the headphones behind a block, and the block.
pub open spec fn headphone_run(
    v: FilterView,
    block: Seq<u32>,
    channels: int,
    g: spec_fn(Calc, u32, u32) -> u32,
) -> (FilterView, Seq<u32>) {
    if !crate::dsp::equalizer::corrects(v) || channels == 0 {
        (v, block)
    } else {
        let (bank, out) = crate::dsp::equalizer::filtered_block(
            v.bank,
            v.gain,
            v.active,
            block,
            channels,
            block.len(),
            g,
        );
        (FilterView { bank, ..v }, out)
    }
}

/// The equalizer behind a block, and the block.
pub open spec fn eq_run(
    v: FilterView,
    block: Seq<u32>,
    channels: int,
    g: spec_fn(Calc, u32, u32) -> u32,
) -> (FilterView, Seq<u32>) {
    if !v.enabled || channels == 0 {
        (v, block)
    } else {
        let (bank, out) = crate::dsp::equalizer::filtered_block(
            v.bank,
            v.gain,
            crate::dsp::equalizer::EQ_BANDS as nat,
            block,
            channels,
            block.len(),
            g,
        );
        (FilterView { bank, ..v }, out)
    }
}

/// The bass boost behind a block, and the block.
pub open spec fn bass_run(
    v: (BassSettings, Seq<BassChannel>),
    block: Seq<u32>,
    channels: int,
    g: spec_fn(Calc, u32, u32) -> u32,
) -> ((BassSettings, Seq<BassChannel>), Seq<u32>) {
    if !v.0.enabled || channels == 0 {
        (v, block)
    } else {
        let (kept, out) = crate::dsp::bass::bass_block(v.0, v.1, block, channels, block.len(), g);
        ((v.0, kept), out)
    }
}

/// The spatializer behind a block, and the block.
pub open spec fn spatializer_run(
    v: SpatialView,
    block: Seq<u32>,
    channels: int,
    g: spec_fn(Calc, u32, u32) -> u32,
) -> (SpatialView, Seq<u32>) {
    if crate::dsp::spatializer::bypassed(v, channels) {
        (v, block)
    } else {
        crate::dsp::spatializer::spatial_block(
            v,
            block,
            channels,
            block.len() / (channels as nat),
            g,
        )
    }
}

/// The ring of speakers behind a block, and the block.
pub open spec fn surround_run(
    v: SurroundView,
    block: Seq<u32>,
    channels: int,
    g: spec_fn(Calc, u32, u32) -> u32,
) -> (SurroundView, Seq<u32>) {
    if channels < 2 || !crate::dsp::surround::heard(v) {
        (v, block)
    } else {
        crate::dsp::surround::surround_block(
            v,
            block,
            channels,
            block.len() / (channels as nat),
            g,
        )
    }
}

/// The room behind a block, and the block.
pub open spec fn room_run(
    v: RoomView,
    block: Seq<u32>,
    channels: int,
    g: spec_fn(Calc, u32, u32) -> u32,
) -> (RoomView, Seq<u32>) {
    if crate::dsp::room::room_bypassed(v, channels) {
        (v, block)
    } else {
        crate::dsp::room::room_block(v, block, channels, block.len() / (channels as nat), g)
    }
}

/// The compander behind a block, what it took away, and the block.
pub open spec fn compander_run(
    v: CompanderView,
    block: Seq<u32>,
    channels: int,
    g: spec_fn(Calc, u32, u32) -> u32,
) -> (CompanderView, Seq<u32>, Seq<u32>) {
    if !v.enabled || channels == 0 {
        (v, crate::dsp::compander::no_reduction(), block)
    } else {
        let run = if channels >= 2 {
            crate::dsp::multiband::compander_block(
                v,
                block,
                channels,
                block.len() / (channels as nat),
                g,
            )
        } else {
            crate::dsp::multiband::compander_block_mono(v, block, block.len(), g)
        };
        (run.state, run.lows, run.buffer)
    }
}

/// A block behind the gain.
pub open spec fn gain_run(
    factor: u32,
    block: Seq<u32>,
    g: spec_fn(Calc, u32, u32) -> u32,
) -> Seq<u32> {
    if crate::dsp::bass::is_unity(factor, g) {
        block
    } else {
        block.map_values(|x: u32| g(Calc::Mul, x, factor))
    }
}

/// The effects and a block behind one of them.
pub open spec fn stage_run(
    stage: Stage,
    v: RackView,
    block: Seq<u32>,
    channels: int,
    t: spec_fn(Seq<u32>) -> Seq<(u32, u32)>,
    b: spec_fn(Seq<(u32, u32)>) -> Seq<u32>,
    g: spec_fn(Calc, u32, u32) -> u32,
) -> (RackView, Seq<u32>) {
    match stage {
        Stage::HeadphoneCorrection => {
            let (headphone, out) = headphone_run(v.headphone, block, channels, g);
            (RackView { headphone, ..v }, out)
        },
        Stage::GraphicEq => {
            let (eq, out) = eq_run(v.eq, block, channels, g);
            (RackView { eq, ..v }, out)
        },
        Stage::BassBoost => {
            let (bass, out) = bass_run(v.bass, block, channels, g);
            (RackView { bass, ..v }, out)
        },
        Stage::Spatializer => {
            let (spatializer, out) = spatializer_run(v.spatializer, block, channels, g);
            (RackView { spatializer, ..v }, out)
        },
        Stage::Surround3D => {
            let (surround, out) = surround_run(v.surround, block, channels, g);
            (RackView { surround, ..v }, out)
        },
        Stage::RoomEffects => {
            let (room, out) = room_run(v.room, block, channels, g);
            (RackView { room, ..v }, out)
        },
        Stage::Convolver => {
            let (convolver, out) = crate::dsp::impulse::impulse_block(
                v.convolver,
                block,
                channels,
                t,
                b,
                g,
            );
            (RackView { convolver, ..v }, out)
        },
        Stage::Compander => {
            let (compander, meter, out) = compander_run(v.compander, block, channels, g);
            (RackView { compander, meter, ..v }, out)
        },
        Stage::Gain => (v, gain_run(v.gain, block, g)),
        Stage::Limiter => {
            let (limiter, out) = crate::dsp::limiter::limited(
                v.limiter,
                block,
                channels,
                g,
            );
            (RackView { limiter, ..v }, out)
        },
    }
}

/// The effects and a block behind so many of the stages, in the order in which they run.
pub open spec fn stages_run(
    v: RackView,
    block: Seq<u32>,
    channels: int,
    count: nat,
    t: spec_fn(Seq<u32>) -> Seq<(u32, u32)>,
    b: spec_fn(Seq<(u32, u32)>) -> Seq<u32>,
    g: spec_fn(Calc, u32, u32) -> u32,
) -> (RackView, Seq<u32>)
    decreases count,
{
    if count == 0 {
        (v, block)
    } else {
        let (before, out) = stages_run(v, block, channels, (count - 1) as nat, t, b, g);
        stage_run(crate::dsp::chain::stage_order()[count - 1], before, out, channels, t, b, g)
    }
}

/// The effects and a block behind all of them.
pub open spec fn rack_run(
    v: RackView,
    block: Seq<u32>,
    channels: int,
    t: spec_fn(Seq<u32>) -> Seq<(u32, u32)>,
    b: spec_fn(Seq<(u32, u32)>) -> Seq<u32>,
    g: spec_fn(Calc, u32, u32) -> u32,
) -> (RackView, Seq<u32>) {
    stages_run(v, block, channels, crate::dsp::chain::stage_order().len(), t, b, g)
}

/// The effects of a device.
pub struct Rack {
    pub power: bool,
    pub headphone: HeadphoneStage,
    pub eq: EqStage,
    pub bass: BassStage,
    pub spatializer: Spatializer,
    pub surround: SurroundStage,
    pub room: RoomStage,
    pub convolver: ImpulseStage,
    pub compander: CompanderStage,
    pub meter: CompanderMeter,
    pub gain: Gain,
    pub limiter: Limiter,
}

impl View for Rack {
    type V = RackView;

    open spec fn view(&self) -> RackView {
        RackView {
            power: self.power,
            headphone: self.headphone.stage@,
            eq: self.eq.stage@,
            bass: (self.bass.stage.settings(), self.bass.stage.channels()),
            spatializer: self.spatializer@,
            surround: self.surround.stage@,
            room: self.room.stage@,
            convolver: self.convolver@,
            compander: self.compander.stage@,
            meter: self.meter@,
            gain: self.gain.factor,
            limiter: self.limiter@,
        }
    }
}

impl Rack {
    /// Every effect is sound, and the sample rates allow for filters.
    pub open spec fn wf(&self) -> bool {
        &&& crate::float_bits::at_most(LEAST_RATE, self.headphone.rate)
        &&& crate::float_bits::at_most(LEAST_RATE, self.eq.rate)
        &&& crate::float_bits::at_most(LEAST_RATE, self.bass.rate)
        &&& self.headphone.stage.wf()
        &&& self.eq.stage.wf()
        &&& self.spatializer.wf()
        &&& self.surround.stage.wf()
        &&& self.room.wf()
        &&& self.convolver.wf()
        &&& self.compander.stage.wf()
        &&& self.limiter.wf()
    }

    /// Effects for a format, as they are before any settings were taken.
    pub fn new<F: Fn(Calc, u32, u32) -> u32, W: Fn(Wide, u64, u64) -> u64>(
        rate: u32,
        channels: usize,
        f: &F,
        w: &W,
    ) -> (r: Rack)
        requires
            crate::float_bits::at_most(LEAST_RATE, rate),
            crate::dsp::arith::callable(*f),
            crate::wide::callable(*w),
        ensures
            r.wf(),
            r.power,
            crate::dsp::stages::headphone_fresh(rate, channels, r.headphone),
            crate::dsp::stages::eq_fresh(rate, channels, *w, r.eq),
            crate::dsp::stages::bass_fresh(rate, channels, *f, *w, r.bass),
            crate::dsp::stages::spatializer_fresh(rate, *f, *w, r.spatializer),
            crate::dsp::stages::surround_fresh(rate, *f, r.surround),
            crate::dsp::stages::room_fresh(rate, *f, r.room),
            r.convolver@ == crate::dsp::impulse::fresh_stage(),
            crate::dsp::stages::compander_fresh(rate, *f, *w, r.compander),
            r.meter@ == crate::dsp::compander::no_reduction(),
            r.gain.factor == ONE_BITS,
            crate::dsp::stages::limiter_fresh(rate, channels, *f, r.limiter),
    {
        Rack {
            power: true,
            headphone: HeadphoneStage::new(rate, channels),
            eq: EqStage::new(rate, channels, w),
            bass: BassStage::new(rate, channels, f, w),
            spatializer: new_spatializer(rate, f, w),
            surround: SurroundStage::new(rate, f),
            room: RoomStage::new(rate, f),
            convolver: ImpulseStage::new(),
            compander: CompanderStage::new(rate, f, w),
            meter: CompanderMeter::new(),
            gain: Gain::new(),
            limiter: new_limiter(rate, channels, f),
        }
    }

    /// Makes every effect ready for a format; the settings stay.
    pub fn prepare<F: Fn(Calc, u32, u32) -> u32, W: Fn(Wide, u64, u64) -> u64>(
        &mut self,
        rate: u32,
        channels: usize,
        f: &F,
        w: &W,
    )
        requires
            old(self).wf(),
            crate::float_bits::at_most(LEAST_RATE, rate),
            crate::dsp::arith::callable(*f),
            crate::wide::callable(*w),
        ensures
            final(self).wf(),
            final(self).power == old(self).power,
            crate::dsp::stages::headphone_prepared(
                old(self).headphone,
                rate,
                channels,
                *w,
                final(self).headphone,
            ),
            crate::dsp::stages::eq_prepared(old(self).eq, rate, channels, *w, final(self).eq),
            crate::dsp::stages::bass_prepared(
                old(self).bass,
                rate,
                channels,
                *f,
                *w,
                final(self).bass,
            ),
            crate::dsp::stages::spatializer_prepared(
                old(self).spatializer,
                rate,
                *f,
                *w,
                final(self).spatializer,
            ),
            crate::dsp::stages::surround_prepared(
                old(self).surround,
                rate,
                *f,
                final(self).surround,
            ),
            crate::dsp::stages::room_prepared(old(self).room, rate, *f, final(self).room),
            final(self).convolver@ == (ImpulseView {
                lines: Seq::empty(),
                ..old(self).convolver@
            }),
            crate::dsp::stages::compander_prepared(
                old(self).compander,
                rate,
                *f,
                *w,
                final(self).compander,
            ),
            final(self).meter == old(self).meter,
            final(self).gain == old(self).gain,
            crate::dsp::stages::limiter_prepared(
                old(self).limiter,
                rate,
                channels,
                *f,
                final(self).limiter,
            ),
    {
        self.headphone.prepare(rate, channels, w);
        self.eq.prepare(rate, channels, w);
        self.bass.prepare(rate, channels, f, w);
        prepare_spatializer(&mut self.spatializer, rate, f, w);
        self.surround.prepare(rate, f);
        self.room.prepare(rate, f);
        self.convolver.prepare();
        self.compander.prepare(rate, f, w);
        prepare_limiter(&mut self.limiter, rate, channels, f);
    }

    /// Gives every effect its settings, and switches the power.
    pub fn set_params<F: Fn(Calc, u32, u32) -> u32, W: Fn(Wide, u64, u64) -> u64>(
        &mut self,
        params: &EngineState,
        f: &F,
        w: &W,
    )
        requires
            old(self).wf(),
            crate::dsp::arith::callable(*f),
            crate::wide::callable(*w),
        ensures
            final(self).wf(),
            final(self).power == params.power,
            crate::dsp::stages::headphone_set(
                old(self).headphone,
                params.headphone,
                *f,
                *w,
                final(self).headphone,
            ),
            crate::dsp::stages::eq_set(old(self).eq, params.eq, *f, *w, final(self).eq),
            crate::dsp::stages::bass_set(old(self).bass, params.bass, *f, *w, final(self).bass),
            crate::dsp::stages::spatializer_set(
                old(self).spatializer,
                params.spatializer,
                final(self).spatializer,
            ),
            crate::dsp::stages::surround_set(
                old(self).surround,
                params.surround3d,
                *f,
                final(self).surround,
            ),
            crate::dsp::stages::room_set(old(self).room, params.room, *f, final(self).room),
            forall|g: spec_fn(Calc, u32, u32) -> u32| #[trigger]
                crate::dsp::arith::computes(*f, g) ==> final(self).convolver@
                    == crate::dsp::impulse::impulse_set(old(self).convolver@, params.convolver, g),
            crate::dsp::stages::compander_set(
                old(self).compander,
                params.compander,
                *f,
                final(self).compander,
            ),
            final(self).meter == old(self).meter,
            crate::dsp::stages::gain_set(params.output, *f, final(self).gain),
            crate::dsp::stages::limiter_set(
                old(self).limiter,
                params.output,
                *f,
                final(self).limiter,
            ),
    {
        self.power = params.power;
        self.headphone.set_params(&params.headphone, f, w);
        self.eq.set_params(&params.eq, f, w);
        self.bass.set_params(&params.bass, f, w);
        set_spatializer(&mut self.spatializer, &params.spatializer);
        self.surround.set_params(&params.surround3d, f);
        self.room.set_params(&params.room, f);
        self.convolver.set_params(&params.convolver, f);
        self.compander.set_params(&params.compander, f);
        set_gain(&mut self.gain, &params.output, f);
        set_limiter(&mut self.limiter, &params.output, f);
    }

    /// Runs a block through the effects in place; with the power off it stays as it is. Windows are
    /// transformed by `forward`, and back by `back`.
    pub fn process<
        T: Fn(&Vec<u32>) -> Vec<(u32, u32)>,
        B: Fn(&Vec<(u32, u32)>) -> Vec<u32>,
        F: Fn(Calc, u32, u32) -> u32,
    >(&mut self, buffer: &mut Vec<u32>, channels: usize, forward: &T, back: &B, f: &F)
        requires
            old(self).wf(),
            old(self)@.limiter.frames.len() + old(buffer)@.len() <= u64::MAX,
            crate::dsp::convolver::transformable(*forward),
            crate::dsp::convolver::reversible(*back),
            crate::dsp::arith::callable(*f),
        ensures
            final(self).wf(),
            final(buffer)@.len() == old(buffer)@.len(),
            final(self)@.limiter.frames.len() <= old(self)@.limiter.frames.len() + old(
                buffer,
            )@.len(),
            !old(self)@.power ==> final(buffer)@ == old(buffer)@ && final(self)@ == old(self)@,
            old(self)@.power ==> forall|
                t: spec_fn(Seq<u32>) -> Seq<(u32, u32)>,
                b: spec_fn(Seq<(u32, u32)>) -> Seq<u32>,
                g: spec_fn(Calc, u32, u32) -> u32,
            | #[trigger]
                crate::dsp::convolver::transforms(*forward, t)
                    && #[trigger] crate::dsp::convolver::reverses(*back, b)
                    && #[trigger] crate::dsp::arith::computes(*f, g) ==> rack_run(
                    old(self)@,
                    old(buffer)@,
                    channels as int,
                    t,
                    b,
                    g,
                ) == (final(self)@, final(buffer)@),
    {
        if !self.power {
            return;
        }
        let ghost v0 = self@;
        let ghost b0 = buffer@;
        self.headphone.stage.process(buffer, channels, f);
        let ghost v1 = self@;
        let ghost b1 = buffer@;
        self.eq.stage.process(buffer, channels, f);
        let ghost v2 = self@;
        let ghost b2 = buffer@;
        self.bass.stage.process(buffer, channels, f);
        let ghost v3 = self@;
        let ghost b3 = buffer@;
        self.spatializer.process(buffer, channels, f);
        let ghost v4 = self@;
        let ghost b4 = buffer@;
        self.surround.stage.process(buffer, channels, f);
        let ghost v5 = self@;
        let ghost b5 = buffer@;
        self.room.stage.process(buffer, channels, f);
        let ghost v6 = self@;
        let ghost b6 = buffer@;
        self.convolver.process(buffer, channels, forward, back, f);
        let ghost v7 = self@;
        let ghost b7 = buffer@;
        self.compander.stage.process(buffer, channels, &mut self.meter, f);
        let ghost v8 = self@;
        let ghost b8 = buffer@;
        self.gain.process(buffer, f);
        let ghost v9 = self@;
        let ghost b9 = buffer@;
        self.limiter.process(buffer, channels, f);
        let ghost v10 = self@;
        let ghost b10 = buffer@;
        proof {
            let ch = channels as int;
            let order = crate::dsp::chain::stage_order();
            assert forall|
                t: spec_fn(Seq<u32>) -> Seq<(u32, u32)>,
                b: spec_fn(Seq<(u32, u32)>) -> Seq<u32>,
                g: spec_fn(Calc, u32, u32) -> u32,
            | #[trigger]
                crate::dsp::convolver::transforms(*forward, t)
                    && #[trigger] crate::dsp::convolver::reverses(*back, b)
                    && #[trigger] crate::dsp::arith::computes(*f, g) implies rack_run(
                v0,
                b0,
                ch,
                t,
                b,
                g,
            ) == (self@, buffer@) by {
                assert(stages_run(v0, b0, ch, 0, t, b, g) == (v0, b0));
                assert(stage_run(order[0], v0, b0, ch, t, b, g) == (v1, b1));
                assert(stages_run(v0, b0, ch, 1, t, b, g) == (v1, b1));
                assert(stage_run(order[1], v1, b1, ch, t, b, g) == (v2, b2));
                assert(stages_run(v0, b0, ch, 2, t, b, g) == (v2, b2));
                assert(stage_run(order[2], v2, b2, ch, t, b, g) == (v3, b3));
                assert(stages_run(v0, b0, ch, 3, t, b, g) == (v3, b3));
                assert(stage_run(order[3], v3, b3, ch, t, b, g) == (v4, b4));
                assert(stages_run(v0, b0, ch, 4, t, b, g) == (v4, b4));
                assert(stage_run(order[4], v4, b4, ch, t, b, g) == (v5, b5));
                assert(stages_run(v0, b0, ch, 5, t, b, g) == (v5, b5));
                assert(stage_run(order[5], v5, b5, ch, t, b, g) == (v6, b6));
                assert(stages_run(v0, b0, ch, 6, t, b, g) == (v6, b6));
                assert(stage_run(order[6], v6, b6, ch, t, b, g) == (v7, b7));
                assert(stages_run(v0, b0, ch, 7, t, b, g) == (v7, b7));
                assert(stage_run(order[7], v7, b7, ch, t, b, g) == (v8, b8));
                assert(stages_run(v0, b0, ch, 8, t, b, g) == (v8, b8));
                assert(stage_run(order[8], v8, b8, ch, t, b, g) == (v9, b9));
                assert(stages_run(v0, b0, ch, 9, t, b, g) == (v9, b9));
                assert(stage_run(order[9], v9, b9, ch, t, b, g) == (v10, b10));
                assert(stages_run(v0, b0, ch, 10, t, b, g) == (v10, b10));
            }
        }
    }
}

/// Every effect is off, not mixed in or without effect.
pub open spec fn idle(v: RackView, channels: int, g: spec_fn(Calc, u32, u32) -> u32) -> bool {
    &&& !crate::dsp::equalizer::corrects(v.headphone)
    &&& !v.eq.enabled
    &&& !v.bass.0.enabled
    &&& crate::dsp::spatializer::bypassed(v.spatializer, channels)
    &&& !crate::dsp::surround::heard(v.surround)
    &&& crate::dsp::room::room_bypassed(v.room, channels)
    &&& crate::dsp::impulse::passes(v.convolver, channels)
    &&& !v.compander.enabled
    &&& crate::dsp::bass::is_unity(v.gain, g)
    &&& !v.limiter.enabled
}

/// Effects that are all off leave the audio alone, and themselves but for the meter, which shows no
/// reduction.
pub proof fn law_idle_effects_leave_audio_alone(
    v: RackView,
    block: Seq<u32>,
    channels: int,
    t: spec_fn(Seq<u32>) -> Seq<(u32, u32)>,
    b: spec_fn(Seq<(u32, u32)>) -> Seq<u32>,
    g: spec_fn(Calc, u32, u32) -> u32,
)
    requires
        idle(v, channels, g),
    ensures
        rack_run(v, block, channels, t, b, g) == (
            RackView { meter: crate::dsp::compander::no_reduction(), ..v },
            block,
        ),
{
    let quiet = RackView { meter: crate::dsp::compander::no_reduction(), ..v };
    assert(stages_run(v, block, channels, 0, t, b, g) == (v, block));
    assert(stages_run(v, block, channels, 1, t, b, g) == (v, block));
    assert(stages_run(v, block, channels, 2, t, b, g) == (v, block));
    assert(stages_run(v, block, channels, 3, t, b, g) == (v, block));
    assert(stages_run(v, block, channels, 4, t, b, g) == (v, block));
    assert(stages_run(v, block, channels, 5, t, b, g) == (v, block));
    assert(stages_run(v, block, channels, 6, t, b, g) == (v, block));
    assert(stages_run(v, block, channels, 7, t, b, g) == (v, block));
    assert(stages_run(v, block, channels, 8, t, b, g) == (quiet, block));
    assert(stages_run(v, block, channels, 9, t, b, g) == (quiet, block));
    assert(stages_run(v, block, channels, 10, t, b, g) == (quiet, block));
}

} // verus!
