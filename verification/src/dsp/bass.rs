//! The bass boost and the makeup gain.
//!
//! The boost is a shelf that is mixed with the dry signal. In its adaptive mode the share of the
//! shelf falls as the bass of the signal gets louder; harmonics of the bass can be added for small
//! drivers.

use vstd::prelude::*;
use crate::dsp::arith::{apply, flush, smooth, Calc, HALF_BITS};
use crate::dsp::bands::{boost_share, channel_of, BoostShare, LOUD, QUIET};
use crate::dsp::biquad::{Biquad, Coeffs};
use crate::float_bits::{bits_magnitude, less_than, ONE_BITS, TWO_BITS};

verus! {

/// The bits of 0.25: the least share of the boost.
pub const LEAST_SHARE: u32 = 0x3e80_0000;

/// The bits of 0.35: the share of the harmonics.
pub const HARMONICS: u32 = 0x3eb3_3333;

/// The bits of the smallest difference from one: a gain nearer to one does nothing.
pub const UNITY_MARGIN: u32 = 0x3400_0000;

/// What the boost remembers of a channel.
#[derive(Debug, Clone, Copy, PartialEq, Eq, Structural)]
pub struct BassChannel {
    pub shelf: Biquad,
    /// The bass that the harmonics are made of.
    pub low: u32,
    /// The bass that the adaptive mode looks at, and its level.
    pub watched: u32,
    pub level: u32,
}

/// How the boost is set.
#[derive(Debug, Clone, Copy, PartialEq, Eq, Structural)]
pub struct BassSettings {
    pub enabled: bool,
    pub harmonics: bool,
    pub adaptive: bool,
    /// How slowly the filters and the level follow.
    pub low_keep: u32,
    pub watch_keep: u32,
    pub attack_keep: u32,
    pub release_keep: u32,
}

/// The share of the boost for a level of the bass.
pub open spec fn share(level: u32, g: spec_fn(Calc, u32, u32) -> u32) -> u32 {
    match crate::dsp::bands::share_of(level) {
        BoostShare::Full => ONE_BITS,
        BoostShare::Least => LEAST_SHARE,
        BoostShare::Partial => {
            let t = g(Calc::Div, g(Calc::Sub, level, QUIET), g(Calc::Sub, LOUD, QUIET));
            g(Calc::Sub, ONE_BITS, g(Calc::Mul, t, g(Calc::Sub, ONE_BITS, LEAST_SHARE)))
        },
    }
}

fn share_at<F: Fn(Calc, u32, u32) -> u32>(level: u32, f: &F) -> (r: u32)
    requires
        crate::dsp::arith::callable(*f),
    ensures
        forall|g: spec_fn(Calc, u32, u32) -> u32| #[trigger]
            crate::dsp::arith::computes(*f, g) ==> r == share(level, g),
{
    match boost_share(level) {
        BoostShare::Full => ONE_BITS,
        BoostShare::Least => LEAST_SHARE,
        BoostShare::Partial => {
            let above: u32 = apply(f, Calc::Sub, level, QUIET);
            let range: u32 = apply(f, Calc::Sub, LOUD, QUIET);
            let t: u32 = apply(f, Calc::Div, above, range);
            let fall: u32 = apply(f, Calc::Sub, ONE_BITS, LEAST_SHARE);
            let part: u32 = apply(f, Calc::Mul, t, fall);
            apply(f, Calc::Sub, ONE_BITS, part)
        },
    }
}

/// A channel behind a sample.
pub open spec fn bass_next(
    s: BassSettings,
    c: BassChannel,
    x: u32,
    g: spec_fn(Calc, u32, u32) -> u32,
) -> BassChannel {
    let watched = crate::dsp::arith::flushed(
        crate::dsp::arith::smoothed(c.watched, s.watch_keep, x, g),
    );
    let top = crate::float_bits::magnitude(watched) as u32;
    let keep = if crate::float_bits::less(c.level, top) {
        s.attack_keep
    } else {
        s.release_keep
    };
    BassChannel {
        shelf: crate::dsp::biquad::section_next(c.shelf, x, g),
        watched: if s.adaptive {
            watched
        } else {
            c.watched
        },
        level: if s.adaptive {
            crate::dsp::arith::flushed(crate::dsp::arith::smoothed(c.level, keep, top, g))
        } else {
            c.level
        },
        low: if s.harmonics {
            crate::dsp::arith::smoothed(c.low, s.low_keep, x, g)
        } else {
            c.low
        },
    }
}

/// So much of what the shelf adds to a sample; all of it is the sample behind the shelf as it is.
pub open spec fn blended(
    x: u32,
    shelved: u32,
    factor: u32,
    g: spec_fn(Calc, u32, u32) -> u32,
) -> u32 {
    if factor == ONE_BITS {
        shelved
    } else {
        g(Calc::Add, x, g(Calc::Mul, factor, g(Calc::Sub, shelved, x)))
    }
}

/// A sample behind the boost.
pub open spec fn bass_out(
    s: BassSettings,
    c: BassChannel,
    x: u32,
    g: spec_fn(Calc, u32, u32) -> u32,
) -> u32 {
    let next = bass_next(s, c, x, g);
    let shelved = crate::dsp::biquad::section_out(c.shelf, x, g);
    let factor = if s.adaptive {
        share(next.level, g)
    } else {
        ONE_BITS
    };
    let boosted = blended(x, shelved, factor, g);
    if s.harmonics {
        let bent = g(Calc::Tanh, g(Calc::Mul, next.low, TWO_BITS), 0);
        g(Calc::Add, boosted, g(Calc::Mul, g(Calc::Mul, HARMONICS, bent), HALF_BITS))
    } else {
        boosted
    }
}

/// The channels and the block behind the first `n` samples. Samples of other channels are left as
/// they are.
pub open spec fn bass_block(
    s: BassSettings,
    cs: Seq<BassChannel>,
    buffer: Seq<u32>,
    channels: int,
    n: nat,
    g: spec_fn(Calc, u32, u32) -> u32,
) -> (Seq<BassChannel>, Seq<u32>)
    decreases n,
{
    if n == 0 {
        (cs, buffer)
    } else {
        let (k, b) = bass_block(s, cs, buffer, channels, (n - 1) as nat, g);
        let c = (n - 1) % channels;
        if c >= k.len() {
            (k, b)
        } else {
            let x = b[n - 1];
            (k.update(c, bass_next(s, k[c], x, g)), b.update(n - 1, bass_out(s, k[c], x, g)))
        }
    }
}

/// The boost.
pub struct BassBoost {
    settings: BassSettings,
    channels: Vec<BassChannel>,
}

/// A channel at rest.
pub open spec fn bass_at_rest(shelf: Coeffs) -> BassChannel {
    BassChannel {
        shelf: crate::dsp::biquad::tuned(
            Biquad { b0: 0, b1: 0, b2: 0, a1: 0, a2: 0, z1: 0, z2: 0 },
            shelf,
        ),
        low: 0,
        watched: 0,
        level: 0,
    }
}

/// The channels with another shelf; each keeps its memory.
pub open spec fn shelves_tuned(channels: Seq<BassChannel>, shelf: Coeffs) -> Seq<BassChannel> {
    channels.map_values(
        |c: BassChannel| BassChannel { shelf: crate::dsp::biquad::tuned(c.shelf, shelf), ..c },
    )
}

impl BassBoost {
    /// How the boost is set.
    pub closed spec fn settings(&self) -> BassSettings {
        self.settings
    }

    /// What it remembers of its channels.
    pub closed spec fn channels(&self) -> Seq<BassChannel> {
        self.channels@
    }

    /// The settings.
    pub fn current(&self) -> (r: BassSettings)
        ensures
            r == self.settings(),
    {
        self.settings
    }

    /// A boost at rest, for at least one channel.
    pub fn new(settings: BassSettings, channels: usize, shelf: Coeffs) -> (r: BassBoost)
        ensures
            r.settings() == settings,
            r.channels() == Seq::new(
                (if channels < 1 {
                    1
                } else {
                    channels as int
                }) as nat,
                |i: int| bass_at_rest(shelf),
            ),
    {
        let n: usize = if channels < 1 {
            1
        } else {
            channels
        };
        let mut out: Vec<BassChannel> = Vec::new();
        let mut i: usize = 0;
        while i < n
            invariant
                i <= n,
                out@ == Seq::new(i as nat, |k: int| bass_at_rest(shelf)),
            decreases n - i,
        {
            let mut section = Biquad::identity();
            section.assign(shelf);
            out.push(BassChannel { shelf: section, low: 0, watched: 0, level: 0 });
            i += 1;
            assert(out@ =~= Seq::new(i as nat, |k: int| bass_at_rest(shelf)));
        }
        BassBoost { settings, channels: out }
    }

    /// Takes settings.
    pub fn set_params(&mut self, settings: BassSettings)
        ensures
            final(self).settings() == settings,
            final(self).channels() == old(self).channels(),
    {
        self.settings = settings;
    }

    /// Tunes the shelves, which keep their memory.
    pub fn retune(&mut self, shelf: Coeffs)
        ensures
            final(self).settings() == old(self).settings(),
            final(self).channels() == shelves_tuned(old(self).channels(), shelf),
    {
        let ghost before = self.channels@;
        let mut i: usize = 0;
        while i < self.channels.len()
            invariant
                i <= self.channels@.len(),
                self.channels@.len() == before.len(),
                self.settings == old(self).settings,
                forall|k: int|
                    0 <= k < before.len() ==> #[trigger] self.channels@[k] == (if k < i {
                        BassChannel {
                            shelf: crate::dsp::biquad::tuned(before[k].shelf, shelf),
                            ..before[k]
                        }
                    } else {
                        before[k]
                    }),
            decreases self.channels@.len() - i,
        {
            let mut c: BassChannel = self.channels[i];
            c.shelf.assign(shelf);
            self.channels.set(i, c);
            i += 1;
        }
        assert(self.channels@ =~= shelves_tuned(before, shelf));
    }

    fn sample<F: Fn(Calc, u32, u32) -> u32>(&mut self, at: usize, x: u32, f: &F) -> (r: u32)
        requires
            at < old(self).channels@.len(),
            crate::dsp::arith::callable(*f),
        ensures
            final(self).settings == old(self).settings,
            forall|g: spec_fn(Calc, u32, u32) -> u32| #[trigger]
                crate::dsp::arith::computes(*f, g) ==> {
                    let c = old(self).channels@[at as int];
                    &&& r == bass_out(old(self).settings, c, x, g)
                    &&& final(self).channels@ == old(self).channels@.update(
                        at as int,
                        bass_next(old(self).settings, c, x, g),
                    )
                },
            final(self).channels@.len() == old(self).channels@.len(),
    {
        let s: BassSettings = self.settings;
        let mut c: BassChannel = self.channels[at];
        let shelved: u32 = c.shelf.process_sample(x, f);
        let mut factor: u32 = ONE_BITS;
        if s.adaptive {
            c.watched = flush(smooth(f, c.watched, s.watch_keep, x));
            let top: u32 = bits_magnitude(c.watched);
            let keep: u32 = if less_than(c.level, top) {
                s.attack_keep
            } else {
                s.release_keep
            };
            c.level = flush(smooth(f, c.level, keep, top));
            factor = share_at(c.level, f);
        }
        let mut boosted: u32 = shelved;
        if factor != ONE_BITS {
            let wet: u32 = apply(f, Calc::Sub, shelved, x);
            let part: u32 = apply(f, Calc::Mul, factor, wet);
            boosted = apply(f, Calc::Add, x, part);
        }
        if s.harmonics {
            c.low = smooth(f, c.low, s.low_keep, x);
            let doubled: u32 = apply(f, Calc::Mul, c.low, TWO_BITS);
            let bent: u32 = apply(f, Calc::Tanh, doubled, 0);
            let scaled: u32 = apply(f, Calc::Mul, HARMONICS, bent);
            let half: u32 = apply(f, Calc::Mul, scaled, HALF_BITS);
            boosted = apply(f, Calc::Add, boosted, half);
        }
        self.channels.set(at, c);
        boosted
    }

    /// Boosts a block in place; a boost that is off leaves it alone.
    pub fn process<F: Fn(Calc, u32, u32) -> u32>(
        &mut self,
        buffer: &mut Vec<u32>,
        channels: usize,
        f: &F,
    )
        requires
            crate::dsp::arith::callable(*f),
        ensures
            final(buffer)@.len() == old(buffer)@.len(),
            final(self).settings() == old(self).settings(),
            !old(self).settings().enabled || channels == 0 ==> final(buffer)@ == old(buffer)@
                && final(self).channels() == old(self).channels(),
            old(self).settings().enabled && channels > 0 ==> forall|
                g: spec_fn(Calc, u32, u32) -> u32,
            | #[trigger]
                crate::dsp::arith::computes(*f, g) ==> bass_block(
                    old(self).settings(),
                    old(self).channels(),
                    old(buffer)@,
                    channels as int,
                    old(buffer)@.len(),
                    g,
                ) == (final(self).channels(), final(buffer)@),
    {
        if !self.settings.enabled || channels == 0 {
            return;
        }
        let ghost start = self.channels@;
        let ghost s = self.settings;
        let mut n: usize = 0;
        while n < buffer.len()
            invariant
                n <= buffer@.len(),
                buffer@.len() == old(buffer)@.len(),
                channels > 0,
                self.settings == s,
                crate::dsp::arith::callable(*f),
                forall|g: spec_fn(Calc, u32, u32) -> u32| #[trigger]
                    crate::dsp::arith::computes(*f, g) ==> bass_block(
                        s,
                        start,
                        old(buffer)@,
                        channels as int,
                        n as nat,
                        g,
                    ) == (self.channels@, buffer@),
            decreases buffer@.len() - n,
        {
            if let Some(c) = channel_of(n, channels, self.channels.len()) {
                let y: u32 = self.sample(c, buffer[n], f);
                buffer.set(n, y);
            }
            n += 1;
        }
    }
}

/// The makeup gain.
#[derive(Debug, Clone, Copy, PartialEq, Eq, Structural)]
pub struct Gain {
    pub factor: u32,
}

/// The gain is as good as one.
pub open spec fn is_unity(factor: u32, g: spec_fn(Calc, u32, u32) -> u32) -> bool {
    crate::float_bits::less(
        crate::float_bits::magnitude(g(Calc::Sub, factor, ONE_BITS)) as u32,
        UNITY_MARGIN,
    )
}

impl Gain {
    /// A gain of one.
    pub fn new() -> (r: Gain)
        ensures
            r.factor == ONE_BITS,
    {
        Gain { factor: ONE_BITS }
    }

    /// Takes a factor.
    pub fn set_params(&mut self, factor: u32)
        ensures
            final(self).factor == factor,
    {
        self.factor = factor;
    }

    /// Multiplies every sample; a gain that is as good as one leaves the block alone.
    pub fn process<F: Fn(Calc, u32, u32) -> u32>(&self, buffer: &mut Vec<u32>, f: &F)
        requires
            crate::dsp::arith::callable(*f),
        ensures
            final(buffer)@.len() == old(buffer)@.len(),
            forall|g: spec_fn(Calc, u32, u32) -> u32| #[trigger]
                crate::dsp::arith::computes(*f, g) ==> final(buffer)@ == (if is_unity(
                    self.factor,
                    g,
                ) {
                    old(buffer)@
                } else {
                    old(buffer)@.map_values(|x: u32| g(Calc::Mul, x, self.factor))
                }),
    {
        let off: u32 = apply(f, Calc::Sub, self.factor, ONE_BITS);
        if less_than(bits_magnitude(off), UNITY_MARGIN) {
            return;
        }
        let mut n: usize = 0;
        while n < buffer.len()
            invariant
                n <= buffer@.len(),
                buffer@.len() == old(buffer)@.len(),
                crate::dsp::arith::callable(*f),
                forall|g: spec_fn(Calc, u32, u32) -> u32, i: int|
                    #![trigger crate::dsp::arith::computes(*f, g), buffer@[i]]
                    crate::dsp::arith::computes(*f, g) && 0 <= i < buffer@.len() ==> buffer@[i] == (
                    if i < n {
                        g(Calc::Mul, old(buffer)@[i], self.factor)
                    } else {
                        old(buffer)@[i]
                    }),
            decreases buffer@.len() - n,
        {
            assert(forall|g: spec_fn(Calc, u32, u32) -> u32| #[trigger]
                crate::dsp::arith::computes(*f, g) ==> buffer@[n as int] == old(
                    buffer,
                )@[n as int]);
            let y: u32 = apply(f, Calc::Mul, buffer[n], self.factor);
            buffer.set(n, y);
            n += 1;
        }
        assert forall|g: spec_fn(Calc, u32, u32) -> u32| #[trigger]
            crate::dsp::arith::computes(*f, g) implies buffer@ == old(buffer)@.map_values(
            |x: u32| g(Calc::Mul, x, self.factor),
        ) by {
            assert(buffer@ =~= old(buffer)@.map_values(|x: u32| g(Calc::Mul, x, self.factor)));
        }
    }
}

impl Default for Gain {
    fn default() -> (r: Gain)
        ensures
            r.factor == ONE_BITS,
    {
        Gain::new()
    }
}

/// A boost that does not adapt, and one that does while the bass is quiet, gives the sample behind
/// the shelf bit for bit, where no harmonics are added.
pub proof fn law_a_full_boost_is_the_shelf(
    s: BassSettings,
    c: BassChannel,
    x: u32,
    g: spec_fn(Calc, u32, u32) -> u32,
)
    requires
        !s.harmonics,
        s.adaptive ==> share(bass_next(s, c, x, g).level, g) == ONE_BITS,
    ensures
        bass_out(s, c, x, g) == crate::dsp::biquad::section_out(c.shelf, x, g),
{
}

} // verus!
