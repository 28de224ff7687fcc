//! Saturation: the signal is bent at four times the sample rate, freed of its constant part, and
//! mixed with the dry signal, which waits until the bent one is there.

use vstd::prelude::*;
use crate::dsp::arith::{apply, flush, limit, to_unit, Calc};
use crate::dsp::delay::CombLine;
use crate::dsp::oversample::{latency_samples, OversampleView, Oversampler4x};
use crate::float_bits::ONE_BITS;

verus! {

/// The bits of 0.2, by which the signal is moved before it is bent, so that even harmonics arise.
pub const BIAS: u32 = 0x3e4c_cccd;

/// The bits of 0.999, the pole of the filter that takes the constant part out.
pub const DC_POLE: u32 = 0x3f7f_be77;

/// A sample bent: `tanh(drive * (x + bias)) - tanh(drive * bias)`.
pub open spec fn bent(x: u32, drive: u32, g: spec_fn(Calc, u32, u32) -> u32) -> u32 {
    g(
        Calc::Sub,
        g(Calc::Tanh, g(Calc::Mul, drive, g(Calc::Add, x, BIAS)), 0),
        g(Calc::Tanh, g(Calc::Mul, drive, BIAS), 0),
    )
}

/// Bends a sample.
pub fn shape<F: Fn(Calc, u32, u32) -> u32>(x: u32, drive: u32, f: &F) -> (r: u32)
    requires
        crate::dsp::arith::callable(*f),
    ensures
        forall|g: spec_fn(Calc, u32, u32) -> u32| #[trigger]
            crate::dsp::arith::computes(*f, g) ==> r == bent(x, drive, g),
{
    let moved: u32 = apply(f, Calc::Add, x, BIAS);
    let driven: u32 = apply(f, Calc::Mul, drive, moved);
    let a: u32 = apply(f, Calc::Tanh, driven, 0);
    let rest: u32 = apply(f, Calc::Mul, drive, BIAS);
    let b: u32 = apply(f, Calc::Tanh, rest, 0);
    apply(f, Calc::Sub, a, b)
}

/// What the filter that takes the constant part out remembers.
#[derive(Debug, Clone, Copy, PartialEq, Eq, Structural)]
pub struct DcBlocker {
    pub x: u32,
    pub y: u32,
}

/// A sample without its constant part.
pub open spec fn dc_free(d: DcBlocker, x: u32, g: spec_fn(Calc, u32, u32) -> u32) -> u32 {
    crate::dsp::arith::flushed(
        g(Calc::Add, g(Calc::Sub, x, d.x), g(Calc::Mul, DC_POLE, d.y)),
    )
}

impl DcBlocker {
    /// Takes the constant part out of a sample.
    pub fn process<F: Fn(Calc, u32, u32) -> u32>(&mut self, x: u32, f: &F) -> (r: u32)
        requires
            crate::dsp::arith::callable(*f),
        ensures
            *final(self) == (DcBlocker { x, y: r }),
            forall|g: spec_fn(Calc, u32, u32) -> u32| #[trigger]
                crate::dsp::arith::computes(*f, g) ==> r == dc_free(*old(self), x, g),
    {
        let step: u32 = apply(f, Calc::Sub, x, self.x);
        let kept: u32 = apply(f, Calc::Mul, DC_POLE, self.y);
        let y: u32 = flush(apply(f, Calc::Add, step, kept));
        self.x = x;
        self.y = y;
        y
    }
}

/// The state of one channel.
pub struct SideView {
    pub over: OversampleView,
    pub dc: DcBlocker,
    /// The dry signal, the newest first.
    pub dry: Seq<u32>,
    pub dry_delay: int,
}

/// How the stage is set.
#[derive(Debug, Clone, Copy, PartialEq, Eq, Structural)]
pub struct SaturationSettings {
    pub enabled: bool,
    pub drive: u32,
    pub mix: u32,
    pub makeup: u32,
}

/// The four samples of the higher rate, bent.
pub open spec fn bent_four(
    s: SaturationSettings,
    c: SideView,
    x: u32,
    g: spec_fn(Calc, u32, u32) -> u32,
) -> Seq<u32> {
    crate::dsp::oversample::raised(c.over, x, g).map_values(|v: u32| bent(v, s.drive, g))
}

/// A sample of the bent signal, back at the lower rate.
pub open spec fn bent_low(
    s: SaturationSettings,
    c: SideView,
    x: u32,
    g: spec_fn(Calc, u32, u32) -> u32,
) -> u32 {
    crate::dsp::oversample::lowered_sum(
        crate::dsp::oversample::raised_next(c.over, x),
        bent_four(s, c, x, g),
        4,
        g,
    )
}

/// A channel behind a sample.
pub open spec fn side_next(
    s: SaturationSettings,
    c: SideView,
    x: u32,
    g: spec_fn(Calc, u32, u32) -> u32,
) -> SideView {
    let low = bent_low(s, c, x, g);
    SideView {
        over: crate::dsp::oversample::lowered_next(
            crate::dsp::oversample::raised_next(c.over, x),
            bent_four(s, c, x, g),
        ),
        dc: DcBlocker { x: low, y: dc_free(c.dc, low, g) },
        dry: crate::dsp::delay::pushed(c.dry, x),
        ..c
    }
}

/// A sample behind the stage: the late dry signal and the bent one, within the limit.
pub open spec fn side_out(
    s: SaturationSettings,
    c: SideView,
    x: u32,
    g: spec_fn(Calc, u32, u32) -> u32,
) -> u32 {
    let wet = dc_free(c.dc, bent_low(s, c, x, g), g);
    crate::dsp::arith::limited(
        g(
            Calc::Add,
            g(Calc::Mul, c.dry[c.dry_delay - 1], g(Calc::Sub, ONE_BITS, s.mix)),
            g(Calc::Mul, g(Calc::Mul, wet, s.mix), s.makeup),
        ),
    )
}

/// The channel and the block behind the first `n` frames, of which one channel is processed.
pub open spec fn side_block(
    s: SaturationSettings,
    c: SideView,
    buffer: Seq<u32>,
    channels: int,
    ch: int,
    n: nat,
    g: spec_fn(Calc, u32, u32) -> u32,
) -> (SideView, Seq<u32>)
    decreases n,
{
    if n == 0 {
        (c, buffer)
    } else {
        let (d, b) = side_block(s, c, buffer, channels, ch, (n - 1) as nat, g);
        let at = (n - 1) * channels + ch;
        (side_next(s, d, b[at], g), b.update(at, side_out(s, d, b[at], g)))
    }
}

/// One channel.
pub struct Side {
    over: Oversampler4x,
    dc: DcBlocker,
    dry: CombLine,
}

impl View for Side {
    type V = SideView;

    closed spec fn view(&self) -> SideView {
        SideView {
            over: self.over@,
            dc: self.dc,
            dry: self.dry.past(),
            dry_delay: self.dry.delay(),
        }
    }
}

impl Side {
    /// All lines are sound.
    pub closed spec fn wf(&self) -> bool {
        self.over.wf() && self.dry.wf()
    }

    /// A silent channel, whose dry signal is as late as the oversampler makes the bent one.
    pub fn new(over: Oversampler4x) -> (r: Side)
        requires
            over.wf(),
        ensures
            r.wf(),
            r@ == (SideView {
                over: over@,
                dc: DcBlocker { x: 0, y: 0 },
                dry: Seq::new(33, |i: int| 0u32),
                dry_delay: 33,
            }),
    {
        let late: usize = latency_samples();
        let r = Side { over, dc: DcBlocker { x: 0, y: 0 }, dry: CombLine::new(late, late) };
        assert(r@.dry =~= Seq::new(33, |i: int| 0u32));
        r
    }

    /// Processes one sample.
    pub fn sample<F: Fn(Calc, u32, u32) -> u32>(
        &mut self,
        s: SaturationSettings,
        x: u32,
        f: &F,
    ) -> (r: u32)
        requires
            old(self).wf(),
            crate::dsp::arith::callable(*f),
        ensures
            final(self).wf(),
            forall|g: spec_fn(Calc, u32, u32) -> u32| #[trigger]
                crate::dsp::arith::computes(*f, g) ==> r == side_out(s, old(self)@, x, g)
                    && final(self)@ == side_next(s, old(self)@, x, g),
    {
        let ghost c = self@;
        let up: [u32; 4] = self.over.upsample(x, f);
        let four: [u32; 4] = [
            shape(up[0], s.drive, f),
            shape(up[1], s.drive, f),
            shape(up[2], s.drive, f),
            shape(up[3], s.drive, f),
        ];
        assert forall|g: spec_fn(Calc, u32, u32) -> u32| #[trigger]
            crate::dsp::arith::computes(*f, g) implies four@ == bent_four(s, c, x, g) by {
            assert(up@ == crate::dsp::oversample::raised(c.over, x, g));
            assert(four@ =~= bent_four(s, c, x, g));
        }
        let low: u32 = self.over.downsample(&four, f);
        let wet: u32 = self.dc.process(low, f);
        let dry: u32 = self.dry.read();
        self.dry.store(x);
        let share: u32 = apply(f, Calc::Sub, ONE_BITS, s.mix);
        let a: u32 = apply(f, Calc::Mul, dry, share);
        let b: u32 = apply(f, Calc::Mul, wet, s.mix);
        let made: u32 = apply(f, Calc::Mul, b, s.makeup);
        limit(apply(f, Calc::Add, a, made))
    }

    fn channel<F: Fn(Calc, u32, u32) -> u32>(
        &mut self,
        s: SaturationSettings,
        buffer: &mut Vec<u32>,
        channels: usize,
        ch: usize,
        f: &F,
    )
        requires
            old(self).wf(),
            ch < channels,
            crate::dsp::arith::callable(*f),
        ensures
            final(self).wf(),
            final(buffer)@.len() == old(buffer)@.len(),
            forall|g: spec_fn(Calc, u32, u32) -> u32| #[trigger]
                crate::dsp::arith::computes(*f, g) ==> side_block(
                    s,
                    old(self)@,
                    old(buffer)@,
                    channels as int,
                    ch as int,
                    old(buffer)@.len() / (channels as nat),
                    g,
                ) == (final(self)@, final(buffer)@),
    {
        let ghost start = self@;
        let frames: usize = buffer.len() / channels;
        let mut n: usize = 0;
        while n < frames
            invariant
                n <= frames,
                ch < channels,
                frames == buffer@.len() / (channels as nat),
                buffer@.len() == old(buffer)@.len(),
                self.wf(),
                crate::dsp::arith::callable(*f),
                forall|g: spec_fn(Calc, u32, u32) -> u32| #[trigger]
                    crate::dsp::arith::computes(*f, g) ==> side_block(
                        s,
                        start,
                        old(buffer)@,
                        channels as int,
                        ch as int,
                        n as nat,
                        g,
                    ) == (self@, buffer@),
            decreases frames - n,
        {
            let len: usize = buffer.len();
            proof {
                crate::dsp::arith::lemma_frame_inside(n as int, len as int, channels as int);
            }
            assert(n * channels + channels <= len);
            let at: usize = n * channels + ch;
            let y: u32 = self.sample(s, buffer[at], f);
            buffer.set(at, y);
            n += 1;
        }
    }
}

/// The stage.
pub struct Saturation {
    settings: SaturationSettings,
    left: Side,
    right: Side,
}

impl Saturation {
    /// Both channels are sound.
    pub closed spec fn wf(&self) -> bool {
        self.left.wf() && self.right.wf()
    }

    /// How the stage is set.
    pub closed spec fn settings(&self) -> SaturationSettings {
        self.settings
    }

    /// The first channel.
    pub closed spec fn left(&self) -> SideView {
        self.left@
    }

    /// The second channel.
    pub closed spec fn right(&self) -> SideView {
        self.right@
    }

    /// A stage with fresh channels.
    pub fn new(settings: SaturationSettings, left: Side, right: Side) -> (r: Saturation)
        requires
            left.wf(),
            right.wf(),
        ensures
            r.wf(),
            r.settings() == settings,
            r.left() == left@,
            r.right() == right@,
    {
        Saturation { settings, left, right }
    }

    /// Starts anew with fresh channels.
    pub fn prepare(&mut self, left: Side, right: Side)
        requires
            left.wf(),
            right.wf(),
        ensures
            final(self).wf(),
            final(self).settings() == old(self).settings(),
            final(self).left() == left@,
            final(self).right() == right@,
    {
        self.left = left;
        self.right = right;
    }

    /// Takes settings; the share of the bent signal is cut to the range from zero to one.
    pub fn set_params(&mut self, settings: SaturationSettings)
        requires
            old(self).wf(),
        ensures
            final(self).wf(),
            final(self).settings() == (SaturationSettings {
                mix: crate::dsp::arith::unit(settings.mix),
                ..settings
            }),
            final(self).left() == old(self).left(),
            final(self).right() == old(self).right(),
    {
        self.settings = SaturationSettings { mix: to_unit(settings.mix), ..settings };
    }

    /// Processes the first two channels of a block in place; a stage that is off leaves it alone.
    pub fn process<F: Fn(Calc, u32, u32) -> u32>(
        &mut self,
        buffer: &mut Vec<u32>,
        channels: usize,
        f: &F,
    )
        requires
            old(self).wf(),
            crate::dsp::arith::callable(*f),
        ensures
            final(self).wf(),
            final(self).settings() == old(self).settings(),
            final(buffer)@.len() == old(buffer)@.len(),
            !old(self).settings().enabled || channels == 0 ==> {
                &&& final(buffer)@ == old(buffer)@
                &&& final(self).left() == old(self).left()
                &&& final(self).right() == old(self).right()
            },
            old(self).settings().enabled && channels > 0 ==> forall|
                g: spec_fn(Calc, u32, u32) -> u32,
            | #[trigger]
                crate::dsp::arith::computes(*f, g) ==> {
                    let s = old(self).settings();
                    let frames = old(buffer)@.len() / (channels as nat);
                    let (l, b) = side_block(
                        s,
                        old(self).left(),
                        old(buffer)@,
                        channels as int,
                        0,
                        frames,
                        g,
                    );
                    let (r, c) = if channels >= 2 {
                        side_block(s, old(self).right(), b, channels as int, 1, frames, g)
                    } else {
                        (old(self).right(), b)
                    };
                    &&& final(self).left() == l
                    &&& final(self).right() == r
                    &&& final(buffer)@ == c
                },
    {
        if !self.settings.enabled || channels == 0 || buffer.len() == 0 {
            proof {
                assert(0nat / (channels as nat) == 0 || channels == 0) by (nonlinear_arith);
            }
            return;
        }
        let s: SaturationSettings = self.settings;
        self.left.channel(s, buffer, channels, 0, f);
        if channels >= 2 {
            self.right.channel(s, buffer, channels, 1, f);
        }
    }
}

} // verus!
