//! Moves the image of headphones out of the head: each ear also hears the other channel, later,
//! duller and softer. The second mode widens the pair first and colours what crosses over.

use vstd::prelude::*;
use crate::dsp::arith::{apply, smooth, to_unit, Calc, HALF_BITS};
use crate::dsp::biquad::{Biquad, Coeffs};
use crate::dsp::delay::DelayLine;
use crate::dsp::spatial::{spatial_path, HrtfConvolver, SpatialPath};
use crate::float_bits::ONE_BITS;
use crate::types::SpatialMode;

verus! {

/// The bits of 0.8, 0.7 and 0.6: how much the second mode widens, how much crosses over, and how
/// much softer it is.
pub const WIDENING: u32 = 0x3f4c_cccd;

pub const CROSSING: u32 = 0x3f33_3333;

pub const SOFTENING: u32 = 0x3f19_999a;

/// The state of the stage.
pub struct SpatialView {
    pub enabled: bool,
    pub amount: u32,
    pub mode: SpatialMode,
    /// The channels as they came in, the newest first, and by how many samples they are late.
    pub left: Seq<u32>,
    pub right: Seq<u32>,
    pub delay: int,
    /// What crosses over to the left and to the right.
    pub to_left: u32,
    pub to_right: u32,
    pub cross_keep: u32,
    pub hrtf_keep: u32,
    pub notch_left: Biquad,
    pub notch_right: Biquad,
}

/// A channel that has taken a sample in.
pub open spec fn taken(past: Seq<u32>, x: u32) -> Seq<u32> {
    crate::dsp::delay::pushed(past, x)
}

/// The late sample of a channel that takes a sample in.
pub open spec fn late(past: Seq<u32>, x: u32, delay: int) -> u32 {
    taken(past, x)[crate::dsp::delay::within(delay, past.len())]
}

/// The state behind a frame of which `l` and `r` are delayed and dulled by `keep`.
pub open spec fn crossed(
    s: SpatialView,
    l: u32,
    r: u32,
    keep: u32,
    g: spec_fn(Calc, u32, u32) -> u32,
) -> SpatialView {
    SpatialView {
        left: taken(s.left, l),
        right: taken(s.right, r),
        to_left: crate::dsp::arith::smoothed(s.to_left, keep, late(s.right, r, s.delay), g),
        to_right: crate::dsp::arith::smoothed(s.to_right, keep, late(s.left, l, s.delay), g),
        ..s
    }
}

/// A sample with what crosses over to it, brought back to its level.
pub open spec fn with_crossing(
    x: u32,
    level: u32,
    crossing: u32,
    norm: u32,
    g: spec_fn(Calc, u32, u32) -> u32,
) -> u32 {
    g(Calc::Mul, g(Calc::Add, x, g(Calc::Mul, level, crossing)), norm)
}

/// A frame of the first mode.
pub open spec fn crossfeed_out(
    s: SpatialView,
    l: u32,
    r: u32,
    g: spec_fn(Calc, u32, u32) -> u32,
) -> (u32, u32) {
    let t = crossed(s, l, r, s.cross_keep, g);
    let level = g(Calc::Mul, s.amount, HALF_BITS);
    let norm = g(Calc::Div, ONE_BITS, g(Calc::Add, ONE_BITS, level));
    (with_crossing(l, level, t.to_left, norm, g), with_crossing(r, level, t.to_right, norm, g))
}

/// The pair, widened.
pub open spec fn widened(
    s: SpatialView,
    l: u32,
    r: u32,
    g: spec_fn(Calc, u32, u32) -> u32,
) -> (u32, u32) {
    let width = g(Calc::Add, ONE_BITS, g(Calc::Mul, s.amount, WIDENING));
    let mid = g(Calc::Mul, g(Calc::Add, l, r), HALF_BITS);
    let side = g(Calc::Mul, g(Calc::Mul, g(Calc::Sub, l, r), HALF_BITS), width);
    (g(Calc::Add, mid, side), g(Calc::Sub, mid, side))
}

/// The state behind a frame of the second mode.
pub open spec fn hrtf_next(
    s: SpatialView,
    l: u32,
    r: u32,
    g: spec_fn(Calc, u32, u32) -> u32,
) -> SpatialView {
    let (wl, wr) = widened(s, l, r, g);
    let t = crossed(s, wl, wr, s.hrtf_keep, g);
    SpatialView {
        notch_left: crate::dsp::biquad::section_next(t.notch_left, t.to_left, g),
        notch_right: crate::dsp::biquad::section_next(t.notch_right, t.to_right, g),
        ..t
    }
}

/// A frame of the second mode.
pub open spec fn hrtf_out(
    s: SpatialView,
    l: u32,
    r: u32,
    g: spec_fn(Calc, u32, u32) -> u32,
) -> (u32, u32) {
    let (wl, wr) = widened(s, l, r, g);
    let t = crossed(s, wl, wr, s.hrtf_keep, g);
    let level = g(Calc::Mul, s.amount, CROSSING);
    let norm = g(Calc::Div, ONE_BITS, g(Calc::Add, ONE_BITS, g(Calc::Mul, level, SOFTENING)));
    let cl = g(
        Calc::Mul,
        crate::dsp::biquad::section_out(t.notch_left, t.to_left, g),
        SOFTENING,
    );
    let cr = g(
        Calc::Mul,
        crate::dsp::biquad::section_out(t.notch_right, t.to_right, g),
        SOFTENING,
    );
    (with_crossing(wl, level, cl, norm, g), with_crossing(wr, level, cr, norm, g))
}

/// The state behind a frame.
pub open spec fn spatial_next(
    s: SpatialView,
    l: u32,
    r: u32,
    g: spec_fn(Calc, u32, u32) -> u32,
) -> SpatialView {
    match s.mode {
        SpatialMode::Crossfeed => crossed(s, l, r, s.cross_keep, g),
        SpatialMode::Hrtf => hrtf_next(s, l, r, g),
    }
}

/// A frame behind the stage.
pub open spec fn spatial_out(
    s: SpatialView,
    l: u32,
    r: u32,
    g: spec_fn(Calc, u32, u32) -> u32,
) -> (u32, u32) {
    match s.mode {
        SpatialMode::Crossfeed => crossfeed_out(s, l, r, g),
        SpatialMode::Hrtf => hrtf_out(s, l, r, g),
    }
}

/// The stage and the block behind the first `n` frames.
pub open spec fn spatial_block(
    s: SpatialView,
    buffer: Seq<u32>,
    channels: int,
    n: nat,
    g: spec_fn(Calc, u32, u32) -> u32,
) -> (SpatialView, Seq<u32>)
    decreases n,
{
    if n == 0 {
        (s, buffer)
    } else {
        let (t, b) = spatial_block(s, buffer, channels, (n - 1) as nat, g);
        let at = (n - 1) * channels;
        let (l, r) = spatial_out(t, b[at], b[at + 1], g);
        (spatial_next(t, b[at], b[at + 1], g), b.update(at, l).update(at + 1, r))
    }
}

/// The stage does nothing with a block.
pub open spec fn bypassed(s: SpatialView, channels: int) -> bool {
    !s.enabled || channels < 2 || crate::float_bits::at_most(s.amount, 0)
}

/// The stage.
pub struct Spatializer {
    enabled: bool,
    amount: u32,
    mode: SpatialMode,
    left: DelayLine,
    right: DelayLine,
    delay: usize,
    to_left: u32,
    to_right: u32,
    cross_keep: u32,
    hrtf_keep: u32,
    notch_left: Biquad,
    notch_right: Biquad,
    hrtf: HrtfConvolver,
}

impl View for Spatializer {
    type V = SpatialView;

    closed spec fn view(&self) -> SpatialView {
        SpatialView {
            enabled: self.enabled,
            amount: self.amount,
            mode: self.mode,
            left: self.left.past(),
            right: self.right.past(),
            delay: self.delay as int,
            to_left: self.to_left,
            to_right: self.to_right,
            cross_keep: self.cross_keep,
            hrtf_keep: self.hrtf_keep,
            notch_left: self.notch_left,
            notch_right: self.notch_right,
        }
    }
}

/// A silent past that can be read `delay` samples back.
pub open spec fn quiet_past(delay: int) -> Seq<u32> {
    Seq::new(
        (if delay < 1 {
            2
        } else {
            delay + 1
        }) as nat,
        |i: int| 0u32,
    )
}

/// A notch at rest.
pub open spec fn notch_at_rest(c: Coeffs) -> Biquad {
    crate::dsp::biquad::tuned(Biquad { b0: 0, b1: 0, b2: 0, a1: 0, a2: 0, z1: 0, z2: 0 }, c)
}

/// The stage at rest, for what a sample rate comes to.
pub open spec fn spatial_at_rest(
    s: SpatialView,
    delay: int,
    cross_keep: u32,
    hrtf_keep: u32,
) -> SpatialView {
    SpatialView {
        left: quiet_past(delay),
        right: quiet_past(delay),
        delay,
        to_left: 0,
        to_right: 0,
        cross_keep,
        hrtf_keep,
        ..s
    }
}

impl Spatializer {
    /// The lines are sound.
    pub closed spec fn wf(&self) -> bool {
        self.left.wf() && self.right.wf()
    }

    /// A stage that is switched off, at rest.
    pub fn new(delay: usize, cross_keep: u32, hrtf_keep: u32, notch: Coeffs) -> (r: Spatializer)
        requires
            delay < usize::MAX,
        ensures
            r.wf(),
            r@ == spatial_at_rest(
                SpatialView {
                    enabled: false,
                    amount: 0,
                    mode: SpatialMode::Crossfeed,
                    left: Seq::empty(),
                    right: Seq::empty(),
                    delay: 0,
                    to_left: 0,
                    to_right: 0,
                    cross_keep: 0,
                    hrtf_keep: 0,
                    notch_left: notch_at_rest(notch),
                    notch_right: notch_at_rest(notch),
                },
                delay as int,
                cross_keep,
                hrtf_keep,
            ),
            !r.measured(),
    {
        let mut section = Biquad::identity();
        section.assign(notch);
        Spatializer {
            enabled: false,
            amount: 0,
            mode: SpatialMode::Crossfeed,
            left: DelayLine::new(delay),
            right: DelayLine::new(delay),
            delay,
            to_left: 0,
            to_right: 0,
            cross_keep,
            hrtf_keep,
            notch_left: section,
            notch_right: section,
            hrtf: HrtfConvolver::default(),
        }
    }

    /// Measured responses of the head are in use.
    pub closed spec fn measured(&self) -> bool {
        self.hrtf.loaded()
    }

    /// Whether measured responses of the head are in use.
    pub fn hrtf_loaded(&self) -> (r: bool)
        ensures
            r == self.measured(),
    {
        self.hrtf.is_loaded()
    }

    /// Comes to rest for a sample rate; the notches are tuned and keep their memory.
    pub fn prepare(&mut self, delay: usize, cross_keep: u32, hrtf_keep: u32, notch: Coeffs)
        requires
            delay < usize::MAX,
        ensures
            final(self).wf(),
            final(self).measured() == old(self).measured(),
            final(self)@ == spatial_at_rest(
                SpatialView {
                    notch_left: crate::dsp::biquad::tuned(old(self)@.notch_left, notch),
                    notch_right: crate::dsp::biquad::tuned(old(self)@.notch_right, notch),
                    ..old(self)@
                },
                delay as int,
                cross_keep,
                hrtf_keep,
            ),
    {
        self.left = DelayLine::new(delay);
        self.right = DelayLine::new(delay);
        self.delay = delay;
        self.to_left = 0;
        self.to_right = 0;
        self.cross_keep = cross_keep;
        self.hrtf_keep = hrtf_keep;
        self.notch_left.assign(notch);
        self.notch_right.assign(notch);
    }

    /// Takes settings; the amount is cut to the range from zero to one.
    pub fn set_params(&mut self, enabled: bool, amount: u32, mode: SpatialMode)
        requires
            old(self).wf(),
        ensures
            final(self).wf(),
            final(self).measured() == old(self).measured(),
            final(self)@ == (SpatialView {
                enabled,
                amount: crate::dsp::arith::unit(amount),
                mode,
                ..old(self)@
            }),
    {
        self.enabled = enabled;
        self.amount = to_unit(amount);
        self.mode = mode;
    }

    fn cross<F: Fn(Calc, u32, u32) -> u32>(&mut self, l: u32, r: u32, keep: u32, f: &F)
        requires
            old(self).wf(),
            crate::dsp::arith::callable(*f),
        ensures
            final(self).wf(),
            final(self).mode == old(self).mode,
            final(self).measured() == old(self).measured(),
            forall|g: spec_fn(Calc, u32, u32) -> u32| #[trigger]
                crate::dsp::arith::computes(*f, g) ==> final(self)@ == crossed(
                    old(self)@,
                    l,
                    r,
                    keep,
                    g,
                ),
    {
        let dl: u32 = self.left.process(l, self.delay);
        let dr: u32 = self.right.process(r, self.delay);
        self.to_left = smooth(f, self.to_left, keep, dr);
        self.to_right = smooth(f, self.to_right, keep, dl);
    }

    fn crossfeed_frame<F: Fn(Calc, u32, u32) -> u32>(&mut self, l: u32, r: u32, f: &F) -> (out: (
        u32,
        u32,
    ))
        requires
            old(self).wf(),
            crate::dsp::arith::callable(*f),
        ensures
            final(self).wf(),
            final(self).mode == old(self).mode,
            final(self).measured() == old(self).measured(),
            forall|g: spec_fn(Calc, u32, u32) -> u32| #[trigger]
                crate::dsp::arith::computes(*f, g) ==> out == crossfeed_out(old(self)@, l, r, g)
                    && final(self)@ == crossed(old(self)@, l, r, old(self)@.cross_keep, g),
    {
        let level: u32 = apply(f, Calc::Mul, self.amount, HALF_BITS);
        let loud: u32 = apply(f, Calc::Add, ONE_BITS, level);
        let norm: u32 = apply(f, Calc::Div, ONE_BITS, loud);
        let keep: u32 = self.cross_keep;
        self.cross(l, r, keep, f);
        let pl: u32 = apply(f, Calc::Mul, level, self.to_left);
        let pr: u32 = apply(f, Calc::Mul, level, self.to_right);
        let sl: u32 = apply(f, Calc::Add, l, pl);
        let sr: u32 = apply(f, Calc::Add, r, pr);
        (apply(f, Calc::Mul, sl, norm), apply(f, Calc::Mul, sr, norm))
    }

    fn hrtf_frame<F: Fn(Calc, u32, u32) -> u32>(&mut self, l: u32, r: u32, f: &F) -> (out: (
        u32,
        u32,
    ))
        requires
            old(self).wf(),
            crate::dsp::arith::callable(*f),
        ensures
            final(self).wf(),
            final(self).mode == old(self).mode,
            final(self).measured() == old(self).measured(),
            forall|g: spec_fn(Calc, u32, u32) -> u32| #[trigger]
                crate::dsp::arith::computes(*f, g) ==> out == hrtf_out(old(self)@, l, r, g)
                    && final(self)@ == hrtf_next(old(self)@, l, r, g),
    {
        let more: u32 = apply(f, Calc::Mul, self.amount, WIDENING);
        let width: u32 = apply(f, Calc::Add, ONE_BITS, more);
        let level: u32 = apply(f, Calc::Mul, self.amount, CROSSING);
        let soft: u32 = apply(f, Calc::Mul, level, SOFTENING);
        let loud: u32 = apply(f, Calc::Add, ONE_BITS, soft);
        let norm: u32 = apply(f, Calc::Div, ONE_BITS, loud);
        let sum: u32 = apply(f, Calc::Add, l, r);
        let mid: u32 = apply(f, Calc::Mul, sum, HALF_BITS);
        let difference: u32 = apply(f, Calc::Sub, l, r);
        let half: u32 = apply(f, Calc::Mul, difference, HALF_BITS);
        let side: u32 = apply(f, Calc::Mul, half, width);
        let wl: u32 = apply(f, Calc::Add, mid, side);
        let wr: u32 = apply(f, Calc::Sub, mid, side);
        let keep: u32 = self.hrtf_keep;
        self.cross(wl, wr, keep, f);
        let nl: u32 = self.notch_left.process_sample(self.to_left, f);
        let nr: u32 = self.notch_right.process_sample(self.to_right, f);
        let cl: u32 = apply(f, Calc::Mul, nl, SOFTENING);
        let cr: u32 = apply(f, Calc::Mul, nr, SOFTENING);
        let pl: u32 = apply(f, Calc::Mul, level, cl);
        let pr: u32 = apply(f, Calc::Mul, level, cr);
        let sl: u32 = apply(f, Calc::Add, wl, pl);
        let sr: u32 = apply(f, Calc::Add, wr, pr);
        (apply(f, Calc::Mul, sl, norm), apply(f, Calc::Mul, sr, norm))
    }

    /// Processes a block in place. A stage that is off, without a pair of channels or with an
    /// amount of zero leaves it alone.
    pub fn process<F: Fn(Calc, u32, u32) -> u32>(
        &mut self,
        buffer: &mut Vec<u32>,
        channels: usize,
        f: &F,
    )
        requires
            old(self).wf(),
            crate::dsp::arith::callable(*f),
        ensures
            final(self).wf(),
            final(self).measured() == old(self).measured(),
            final(buffer)@.len() == old(buffer)@.len(),
            bypassed(old(self)@, channels as int) ==> final(buffer)@ == old(buffer)@
                && final(self)@ == old(self)@,
            !bypassed(old(self)@, channels as int) ==> forall|g: spec_fn(Calc, u32, u32) -> u32|
             #[trigger]
                crate::dsp::arith::computes(*f, g) ==> spatial_block(
                    old(self)@,
                    old(buffer)@,
                    channels as int,
                    old(buffer)@.len() / (channels as nat),
                    g,
                ) == (final(self)@, final(buffer)@),
    {
        let path = spatial_path(self.enabled, channels, self.amount, self.mode);
        if path == SpatialPath::Bypass {
            return;
        }
        let ghost start = self@;
        let ghost mode = self.mode;
        let frames: usize = buffer.len() / channels;
        let mut n: usize = 0;
        while n < frames
            invariant
                n <= frames,
                channels >= 2,
                frames == buffer@.len() / (channels as nat),
                buffer@.len() == old(buffer)@.len(),
                self.wf(),
                self.mode == mode,
                self.measured() == old(self).measured(),
                path == (match mode {
                    SpatialMode::Crossfeed => SpatialPath::Crossfeed,
                    SpatialMode::Hrtf => SpatialPath::Hrtf,
                }),
                crate::dsp::arith::callable(*f),
                forall|g: spec_fn(Calc, u32, u32) -> u32| #[trigger]
                    crate::dsp::arith::computes(*f, g) ==> spatial_block(
                        start,
                        old(buffer)@,
                        channels as int,
                        n as nat,
                        g,
                    ) == (self@, buffer@),
            decreases frames - n,
        {
            let len: usize = buffer.len();
            proof {
                crate::dsp::arith::lemma_frame_inside(n as int, len as int, channels as int);
            }
            assert(n * channels + channels <= len);
            let at: usize = n * channels;
            let (l, r): (u32, u32) = if path == SpatialPath::Crossfeed {
                self.crossfeed_frame(buffer[at], buffer[at + 1], f)
            } else {
                self.hrtf_frame(buffer[at], buffer[at + 1], f)
            };
            buffer.set(at, l);
            buffer.set(at + 1, r);
            n += 1;
        }
    }
}

} // verus!
