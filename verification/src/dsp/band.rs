//! One band of the compander: the level is followed in dB, a curve gives its gain, and the gain,
//! smoothed, is applied to frames that are held back for the look-ahead.

use vstd::prelude::*;
use crate::dsp::arith::{apply, flush, larger_of, Calc, HALF_BITS};
use crate::dsp::compander::Control;
use crate::dsp::delay::HeldFrames;
use crate::float_bits::{bits_magnitude, less_than, negate, ONE_BITS};

verus! {

/// The bits of 1e-10: a magnitude below this is silence.
pub const SILENCE: u32 = 0x2edb_e6ff;

/// The bits of -200: the level of silence in dB.
pub const SILENCE_DB: u32 = 0xc348_0000;

/// The bits of -96, where the followed level starts, and of 96.
pub const FLOOR_DB: u32 = 0xc2c0_0000;

pub const FLOOR_OFFSET: u32 = 0x42c0_0000;

/// The bits of ln(10) / 20.
pub const NEPERS_PER_DB: u32 = 0x3deb_c8e3;

/// The bits of 2 / ln(2), and of 20 times the decimal logarithm of 2.
pub const TWO_OVER_LN_TWO: u32 = 0x4038_aa3b;

pub const DB_PER_OCTAVE: u32 = 0x40c0_a8c2;

/// The bits of a third, a fifth and a seventh.
pub const THIRD: u32 = 0x3eaa_aaab;

pub const FIFTH: u32 = 0x3e4c_cccd;

pub const SEVENTH: u32 = 0x3e12_4925;

/// The level of a positive magnitude in dB: its power of two, and a series for the logarithm of
/// what is left of it.
pub open spec fn level_db(v: u32, g: spec_fn(Calc, u32, u32) -> u32) -> u32 {
    if crate::float_bits::less(v, SILENCE) {
        SILENCE_DB
    } else {
        let m = crate::float_bits::mantissa(v);
        let e = g(Calc::Power, (crate::float_bits::exponent(v) + 127) as u32, 0);
        let t = g(Calc::Div, g(Calc::Sub, m, ONE_BITS), g(Calc::Add, m, ONE_BITS));
        let q = g(Calc::Mul, t, t);
        let inner = g(Calc::Add, FIFTH, g(Calc::Mul, q, SEVENTH));
        let middle = g(Calc::Add, THIRD, g(Calc::Mul, q, inner));
        let series = g(Calc::Mul, t, g(Calc::Add, ONE_BITS, g(Calc::Mul, q, middle)));
        g(Calc::Mul, g(Calc::Add, e, g(Calc::Mul, series, TWO_OVER_LN_TWO)), DB_PER_OCTAVE)
    }
}

/// The level of a positive magnitude in dB.
pub fn fast_level_db<F: Fn(Calc, u32, u32) -> u32>(v: u32, f: &F) -> (r: u32)
    requires
        crate::dsp::arith::callable(*f),
        v < crate::float_bits::SIGN_BIT,
    ensures
        forall|g: spec_fn(Calc, u32, u32) -> u32| #[trigger]
            crate::dsp::arith::computes(*f, g) ==> r == level_db(v, g),
{
    if less_than(v, SILENCE) {
        return SILENCE_DB;
    }
    let power: u32 = v / 0x80_0000;
    let m: u32 = v % 0x80_0000 + ONE_BITS;
    let e: u32 = apply(f, Calc::Power, power, 0);
    let below: u32 = apply(f, Calc::Sub, m, ONE_BITS);
    let above: u32 = apply(f, Calc::Add, m, ONE_BITS);
    let t: u32 = apply(f, Calc::Div, below, above);
    let q: u32 = apply(f, Calc::Mul, t, t);
    let i0: u32 = apply(f, Calc::Mul, q, SEVENTH);
    let inner: u32 = apply(f, Calc::Add, FIFTH, i0);
    let m0: u32 = apply(f, Calc::Mul, q, inner);
    let middle: u32 = apply(f, Calc::Add, THIRD, m0);
    let s0: u32 = apply(f, Calc::Mul, q, middle);
    let s1: u32 = apply(f, Calc::Add, ONE_BITS, s0);
    let series: u32 = apply(f, Calc::Mul, t, s1);
    let octaves: u32 = apply(f, Calc::Mul, series, TWO_OVER_LN_TWO);
    let log: u32 = apply(f, Calc::Add, e, octaves);
    apply(f, Calc::Mul, log, DB_PER_OCTAVE)
}

/// The factor of a level in dB.
pub open spec fn db_factor(db: u32, g: spec_fn(Calc, u32, u32) -> u32) -> u32 {
    g(Calc::Exp, g(Calc::Mul, db, NEPERS_PER_DB), 0)
}

/// What a band does to levels.
#[derive(Debug, Clone, Copy, PartialEq, Eq, Structural)]
pub struct Curve {
    pub threshold: u32,
    pub ratio: u32,
    pub knee: u32,
    pub gate: u32,
    pub expander_ratio: u32,
}

/// The gain in dB of the expander, which pushes down quiet levels.
pub open spec fn expander_gain(c: Curve, level: u32, g: spec_fn(Calc, u32, u32) -> u32) -> u32 {
    if crate::float_bits::less(level, c.gate) {
        g(
            Calc::Mul,
            crate::float_bits::negated(g(Calc::Sub, c.gate, level)),
            g(Calc::Sub, c.expander_ratio, ONE_BITS),
        )
    } else {
        0
    }
}

/// The gain in dB for a level: above the threshold it is brought down, softly within half a knee.
pub open spec fn curve_gain(c: Curve, level: u32, g: spec_fn(Calc, u32, u32) -> u32) -> u32 {
    let gain = expander_gain(c, level, g);
    if !crate::float_bits::less(c.threshold, level) {
        gain
    } else {
        let over = g(Calc::Sub, level, c.threshold);
        let half = g(Calc::Mul, c.knee, HALF_BITS);
        let slope = g(Calc::Sub, ONE_BITS, g(Calc::Div, ONE_BITS, c.ratio));
        if !crate::float_bits::less(0, c.knee) {
            g(Calc::Sub, gain, g(Calc::Mul, over, slope))
        } else if crate::float_bits::less(over, half) {
            let x = g(Calc::Div, over, half);
            g(
                Calc::Sub,
                gain,
                g(Calc::Mul, g(Calc::Mul, g(Calc::Mul, over, slope), x), HALF_BITS),
            )
        } else {
            let knee = g(Calc::Mul, g(Calc::Mul, half, slope), HALF_BITS);
            g(
                Calc::Sub,
                g(Calc::Sub, gain, knee),
                g(Calc::Mul, g(Calc::Sub, over, half), slope),
            )
        }
    }
}

impl Curve {
    /// The gain in dB for a level.
    pub fn compute_gain<F: Fn(Calc, u32, u32) -> u32>(&self, level: u32, f: &F) -> (r: u32)
        requires
            crate::dsp::arith::callable(*f),
        ensures
            forall|g: spec_fn(Calc, u32, u32) -> u32| #[trigger]
                crate::dsp::arith::computes(*f, g) ==> r == curve_gain(*self, level, g),
    {
        let mut gain: u32 = 0;
        if less_than(level, self.gate) {
            let under: u32 = apply(f, Calc::Sub, self.gate, level);
            let steep: u32 = apply(f, Calc::Sub, self.expander_ratio, ONE_BITS);
            gain = apply(f, Calc::Mul, negate(under), steep);
        }
        if less_than(self.threshold, level) {
            let over: u32 = apply(f, Calc::Sub, level, self.threshold);
            let half: u32 = apply(f, Calc::Mul, self.knee, HALF_BITS);
            let inverse: u32 = apply(f, Calc::Div, ONE_BITS, self.ratio);
            let slope: u32 = apply(f, Calc::Sub, ONE_BITS, inverse);
            if !less_than(0, self.knee) {
                let cut: u32 = apply(f, Calc::Mul, over, slope);
                gain = apply(f, Calc::Sub, gain, cut);
            } else if less_than(over, half) {
                let x: u32 = apply(f, Calc::Div, over, half);
                let a: u32 = apply(f, Calc::Mul, over, slope);
                let b: u32 = apply(f, Calc::Mul, a, x);
                let cut: u32 = apply(f, Calc::Mul, b, HALF_BITS);
                gain = apply(f, Calc::Sub, gain, cut);
            } else {
                let beyond: u32 = apply(f, Calc::Sub, over, half);
                let a: u32 = apply(f, Calc::Mul, half, slope);
                let knee: u32 = apply(f, Calc::Mul, a, HALF_BITS);
                gain = apply(f, Calc::Sub, gain, knee);
                let cut: u32 = apply(f, Calc::Mul, beyond, slope);
                gain = apply(f, Calc::Sub, gain, cut);
            }
        }
        gain
    }
}

/// The state of a band.
pub struct BandView {
    pub curve: Curve,
    pub attack: u32,
    pub release: u32,
    pub declick: u32,
    pub makeup: u32,
    /// The followed level in dB.
    pub level: u32,
    /// The smoothed gain in dB, and its factor.
    pub gain_db: u32,
    pub gain: u32,
    /// After how many frames the factor is computed anew.
    pub left: int,
    /// The frames held back, the newest first.
    pub held: Seq<(u32, u32)>,
}

/// The followed level behind a peak: fast up, slowly down.
pub open spec fn level_next(b: BandView, peak: u32, g: spec_fn(Calc, u32, u32) -> u32) -> u32 {
    let db = level_db(peak, g);
    let speed = if crate::float_bits::less(b.level, db) {
        b.attack
    } else {
        b.release
    };
    let moved = g(Calc::Add, b.level, g(Calc::Mul, speed, g(Calc::Sub, db, b.level)));
    g(
        Calc::Sub,
        crate::dsp::arith::flushed(g(Calc::Add, moved, FLOOR_OFFSET)),
        FLOOR_OFFSET,
    )
}

/// By how much the smoothed gain moves behind a peak.
pub open spec fn gain_step(b: BandView, peak: u32, g: spec_fn(Calc, u32, u32) -> u32) -> u32 {
    let wanted = curve_gain(b.curve, level_next(b, peak, g), g);
    g(Calc::Mul, b.declick, g(Calc::Sub, wanted, b.gain_db))
}

/// The factor between two exact computations: it follows the step in dB by a series.
pub open spec fn followed(gain: u32, step: u32, g: spec_fn(Calc, u32, u32) -> u32) -> u32 {
    let x = g(Calc::Mul, NEPERS_PER_DB, step);
    let inner = g(Calc::Add, ONE_BITS, g(Calc::Mul, HALF_BITS, x));
    g(Calc::Mul, gain, g(Calc::Add, ONE_BITS, g(Calc::Mul, x, inner)))
}

/// The band behind a peak, with its frames as they were.
pub open spec fn gain_next(b: BandView, peak: u32, g: spec_fn(Calc, u32, u32) -> u32) -> BandView {
    let step = gain_step(b, peak, g);
    let gain_db = g(Calc::Add, b.gain_db, step);
    BandView {
        level: level_next(b, peak, g),
        gain_db,
        gain: if b.left == 1 {
            db_factor(gain_db, g)
        } else {
            followed(b.gain, step, g)
        },
        left: if b.left == 1 {
            crate::dsp::compander::CTRL_INTERVAL as int
        } else {
            b.left - 1
        },
        ..b
    }
}

/// The factor that a band applies.
pub open spec fn applied(b: BandView, g: spec_fn(Calc, u32, u32) -> u32) -> u32 {
    g(Calc::Mul, b.gain, b.makeup)
}

/// The peak of a frame over both channels.
pub open spec fn frame_top(l: u32, r: u32) -> u32 {
    crate::dsp::arith::larger(
        crate::float_bits::magnitude(l) as u32,
        crate::float_bits::magnitude(r) as u32,
    )
}

/// The band behind a frame.
pub open spec fn band_next(
    b: BandView,
    l: u32,
    r: u32,
    g: spec_fn(Calc, u32, u32) -> u32,
) -> BandView {
    BandView {
        held: crate::dsp::delay::held_after(b.held, (l, r)),
        ..gain_next(b, frame_top(l, r), g)
    }
}

/// What comes out of a band for a frame.
pub open spec fn band_out(
    b: BandView,
    l: u32,
    r: u32,
    g: spec_fn(Calc, u32, u32) -> u32,
) -> (u32, u32) {
    let out = crate::dsp::delay::held_out(b.held, (l, r));
    let factor = applied(gain_next(b, frame_top(l, r), g), g);
    (g(Calc::Mul, out.0, factor), g(Calc::Mul, out.1, factor))
}

/// The band behind a sample of a single channel.
pub open spec fn band_next_mono(
    b: BandView,
    x: u32,
    g: spec_fn(Calc, u32, u32) -> u32,
) -> BandView {
    BandView {
        held: crate::dsp::delay::held_after(
            b.held,
            (x, crate::dsp::delay::held_out(b.held, (x, 0)).1),
        ),
        ..gain_next(b, crate::float_bits::magnitude(x) as u32, g)
    }
}

/// What comes out of a band for a sample of a single channel.
pub open spec fn band_out_mono(b: BandView, x: u32, g: spec_fn(Calc, u32, u32) -> u32) -> u32 {
    let out = crate::dsp::delay::held_out(b.held, (x, 0)).0;
    g(Calc::Mul, out, applied(gain_next(b, crate::float_bits::magnitude(x) as u32, g), g))
}

/// One band.
pub struct BandCompressor {
    curve: Curve,
    attack: u32,
    release: u32,
    declick: u32,
    makeup: u32,
    level: u32,
    gain_db: u32,
    gain: u32,
    control: Control,
    held: HeldFrames,
}

impl View for BandCompressor {
    type V = BandView;

    closed spec fn view(&self) -> BandView {
        BandView {
            curve: self.curve,
            attack: self.attack,
            release: self.release,
            declick: self.declick,
            makeup: self.makeup,
            level: self.level,
            gain_db: self.gain_db,
            gain: self.gain,
            left: self.control.left as int,
            held: self.held.held(),
        }
    }
}

/// A band at rest.
pub open spec fn band_at_rest(b: BandView, lookahead: nat) -> BandView {
    BandView {
        level: FLOOR_DB,
        gain_db: 0,
        gain: ONE_BITS,
        left: 1,
        held: Seq::new(lookahead, |i: int| (0u32, 0u32)),
        ..b
    }
}

/// How fast a band reacts.
#[derive(Debug, Clone, Copy, PartialEq, Eq, Structural)]
pub struct Speeds {
    pub attack: u32,
    pub release: u32,
    pub declick: u32,
}

impl BandCompressor {
    /// The band is sound.
    pub closed spec fn wf(&self) -> bool {
        self.control.wf() && self.held.wf()
    }

    /// A band at rest.
    pub fn new(curve: Curve, speeds: Speeds, makeup: u32, lookahead: usize) -> (r: BandCompressor)
        ensures
            r.wf(),
            r@ == band_at_rest(
                BandView {
                    curve,
                    attack: speeds.attack,
                    release: speeds.release,
                    declick: speeds.declick,
                    makeup,
                    level: 0,
                    gain_db: 0,
                    gain: 0,
                    left: 0,
                    held: Seq::empty(),
                },
                lookahead as nat,
            ),
    {
        BandCompressor {
            curve,
            attack: speeds.attack,
            release: speeds.release,
            declick: speeds.declick,
            makeup,
            level: FLOOR_DB,
            gain_db: 0,
            gain: ONE_BITS,
            control: Control::new(),
            held: HeldFrames::new(lookahead),
        }
    }

    /// Brings the band to rest, for a look-ahead.
    pub fn prepare(&mut self, lookahead: usize)
        ensures
            final(self).wf(),
            final(self)@ == band_at_rest(old(self)@, lookahead as nat),
    {
        self.level = FLOOR_DB;
        self.gain_db = 0;
        self.gain = ONE_BITS;
        self.control = Control::new();
        self.held = HeldFrames::new(lookahead);
    }

    /// Takes settings; what the band holds stays.
    pub fn set_params(&mut self, curve: Curve, speeds: Speeds, makeup: u32)
        requires
            old(self).wf(),
        ensures
            final(self).wf(),
            final(self)@ == (BandView {
                curve,
                attack: speeds.attack,
                release: speeds.release,
                declick: speeds.declick,
                makeup,
                ..old(self)@
            }),
    {
        self.curve = curve;
        self.attack = speeds.attack;
        self.release = speeds.release;
        self.declick = speeds.declick;
        self.makeup = makeup;
    }

    /// The smoothed gain in dB.
    pub fn current_gain_db(&self) -> (r: u32)
        ensures
            r == self@.gain_db,
    {
        self.gain_db
    }

    fn advance_gain<F: Fn(Calc, u32, u32) -> u32>(&mut self, peak: u32, f: &F) -> (r: u32)
        requires
            old(self).wf(),
            peak < crate::float_bits::SIGN_BIT,
            crate::dsp::arith::callable(*f),
        ensures
            final(self).wf(),
            final(self)@.held == old(self)@.held,
            final(self).held == old(self).held,
            forall|g: spec_fn(Calc, u32, u32) -> u32| #[trigger]
                crate::dsp::arith::computes(*f, g) ==> final(self)@ == gain_next(
                    old(self)@,
                    peak,
                    g,
                ) && r == applied(gain_next(old(self)@, peak, g), g),
    {
        let db: u32 = fast_level_db(peak, f);
        let speed: u32 = if less_than(self.level, db) {
            self.attack
        } else {
            self.release
        };
        let gap: u32 = apply(f, Calc::Sub, db, self.level);
        let part: u32 = apply(f, Calc::Mul, speed, gap);
        let moved: u32 = apply(f, Calc::Add, self.level, part);
        let raised: u32 = apply(f, Calc::Add, moved, FLOOR_OFFSET);
        self.level = apply(f, Calc::Sub, flush(raised), FLOOR_OFFSET);
        let wanted: u32 = self.curve.compute_gain(self.level, f);
        let distance: u32 = apply(f, Calc::Sub, wanted, self.gain_db);
        let step: u32 = apply(f, Calc::Mul, self.declick, distance);
        self.gain_db = apply(f, Calc::Add, self.gain_db, step);
        if self.control.tick() {
            let nepers: u32 = apply(f, Calc::Mul, self.gain_db, NEPERS_PER_DB);
            self.gain = apply(f, Calc::Exp, nepers, 0);
        } else {
            let x: u32 = apply(f, Calc::Mul, NEPERS_PER_DB, step);
            let half: u32 = apply(f, Calc::Mul, HALF_BITS, x);
            let inner: u32 = apply(f, Calc::Add, ONE_BITS, half);
            let second: u32 = apply(f, Calc::Mul, x, inner);
            let factor: u32 = apply(f, Calc::Add, ONE_BITS, second);
            self.gain = apply(f, Calc::Mul, self.gain, factor);
        }
        apply(f, Calc::Mul, self.gain, self.makeup)
    }

    /// Takes a frame: its level sets the gain of the frame that comes out.
    pub fn process_frame<F: Fn(Calc, u32, u32) -> u32>(&mut self, l: u32, r: u32, f: &F) -> (out: (
        u32,
        u32,
    ))
        requires
            old(self).wf(),
            crate::dsp::arith::callable(*f),
        ensures
            final(self).wf(),
            forall|g: spec_fn(Calc, u32, u32) -> u32| #[trigger]
                crate::dsp::arith::computes(*f, g) ==> out == band_out(old(self)@, l, r, g)
                    && final(self)@ == band_next(old(self)@, l, r, g),
    {
        let peak: u32 = larger_of(bits_magnitude(l), bits_magnitude(r));
        let factor: u32 = self.advance_gain(peak, f);
        let (dl, dr): (u32, u32) = self.held.process(l, r);
        (apply(f, Calc::Mul, dl, factor), apply(f, Calc::Mul, dr, factor))
    }

    /// Takes a sample of a single channel.
    pub fn process_frame_mono<F: Fn(Calc, u32, u32) -> u32>(&mut self, x: u32, f: &F) -> (out: u32)
        requires
            old(self).wf(),
            crate::dsp::arith::callable(*f),
        ensures
            final(self).wf(),
            forall|g: spec_fn(Calc, u32, u32) -> u32| #[trigger]
                crate::dsp::arith::computes(*f, g) ==> out == band_out_mono(old(self)@, x, g)
                    && final(self)@ == band_next_mono(old(self)@, x, g),
    {
        let factor: u32 = self.advance_gain(bits_magnitude(x), f);
        let d: u32 = self.held.process_left(x);
        apply(f, Calc::Mul, d, factor)
    }
}

} // verus!
