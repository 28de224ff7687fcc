//! The compander: nine crossovers split the signal into ten bands by taking the low part out of
//! what is left each time, every band is compressed on its own, and the bands are summed.

use vstd::prelude::*;
use crate::dsp::arith::{apply, flush, limit, Calc};
use crate::dsp::band::{BandCompressor, BandView, Curve, Speeds};
use crate::dsp::biquad::{Biquad, Coeffs};
use crate::dsp::compander::{BlockGains, CompanderMeter, BAND_COUNT};

verus! {

/// A lowpass of one channel: two sections, one behind the other.
#[derive(Debug, Clone, Copy, PartialEq, Eq, Structural)]
pub struct Crossover {
    pub first: Biquad,
    pub second: Biquad,
}

/// The low part of a sample.
pub open spec fn low_part(c: Crossover, x: u32, g: spec_fn(Calc, u32, u32) -> u32) -> u32 {
    crate::dsp::biquad::section_out(c.second, crate::dsp::biquad::section_out(c.first, x, g), g)
}

/// The crossover behind a sample.
pub open spec fn crossover_next(
    c: Crossover,
    x: u32,
    g: spec_fn(Calc, u32, u32) -> u32,
) -> Crossover {
    Crossover {
        first: crate::dsp::biquad::section_next(c.first, x, g),
        second: crate::dsp::biquad::section_next(
            c.second,
            crate::dsp::biquad::section_out(c.first, x, g),
            g,
        ),
    }
}

/// A crossover at rest.
pub open spec fn crossover_at_rest(c: Coeffs) -> Crossover {
    let section = crate::dsp::biquad::tuned(
        Biquad { b0: 0, b1: 0, b2: 0, a1: 0, a2: 0, z1: 0, z2: 0 },
        c,
    );
    Crossover { first: section, second: section }
}

impl Crossover {
    /// A crossover at rest.
    pub fn new(c: Coeffs) -> (r: Crossover)
        ensures
            r == crossover_at_rest(c),
    {
        let mut section = Biquad::identity();
        section.assign(c);
        Crossover { first: section, second: section }
    }

    /// Gives the low part of a sample.
    pub fn lowpass<F: Fn(Calc, u32, u32) -> u32>(&mut self, x: u32, f: &F) -> (r: u32)
        requires
            crate::dsp::arith::callable(*f),
        ensures
            forall|g: spec_fn(Calc, u32, u32) -> u32| #[trigger]
                crate::dsp::arith::computes(*f, g) ==> r == low_part(*old(self), x, g)
                    && *final(self) == crossover_next(*old(self), x, g),
    {
        let mid: u32 = self.first.process_sample(x, f);
        self.second.process_sample(mid, f)
    }
}

/// What is left of a sample when the first `k` crossovers have taken their low parts out.
pub open spec fn left_over(
    cs: Seq<Crossover>,
    x: u32,
    k: nat,
    g: spec_fn(Calc, u32, u32) -> u32,
) -> u32
    decreases k,
{
    if k == 0 {
        x
    } else {
        let rest = left_over(cs, x, (k - 1) as nat, g);
        g(Calc::Sub, rest, low_part(cs[k - 1], rest, g))
    }
}

/// The part of a sample that a band gets: the low part of what is left, or, behind the last
/// crossover, all that is left.
pub open spec fn band_part(
    cs: Seq<Crossover>,
    x: u32,
    k: nat,
    g: spec_fn(Calc, u32, u32) -> u32,
) -> u32 {
    if k < cs.len() {
        low_part(cs[k as int], left_over(cs, x, k, g), g)
    } else {
        left_over(cs, x, cs.len(), g)
    }
}

/// The crossovers behind a sample that the first `k` have met.
pub open spec fn crossovers_next(
    cs: Seq<Crossover>,
    x: u32,
    k: nat,
    g: spec_fn(Calc, u32, u32) -> u32,
) -> Seq<Crossover> {
    Seq::new(
        cs.len(),
        |i: int|
            if i < k {
                crossover_next(cs[i], left_over(cs, x, i as nat, g), g)
            } else {
                cs[i]
            },
    )
}

/// The state of the compander.
pub struct CompanderView {
    pub enabled: bool,
    pub left: Seq<Crossover>,
    pub right: Seq<Crossover>,
    pub bands: Seq<BandView>,
}

/// The bands behind a frame that the first `k` have met.
pub open spec fn bands_next(
    s: CompanderView,
    l: u32,
    r: u32,
    k: nat,
    g: spec_fn(Calc, u32, u32) -> u32,
) -> Seq<BandView> {
    Seq::new(
        s.bands.len(),
        |i: int|
            if i < k {
                crate::dsp::band::band_next(
                    s.bands[i],
                    band_part(s.left, l, i as nat, g),
                    band_part(s.right, r, i as nat, g),
                    g,
                )
            } else {
                s.bands[i]
            },
    )
}

/// The sum of the first `k` bands.
pub open spec fn bands_sum(
    s: CompanderView,
    l: u32,
    r: u32,
    k: nat,
    g: spec_fn(Calc, u32, u32) -> u32,
) -> (u32, u32)
    decreases k,
{
    if k == 0 {
        (0, 0)
    } else {
        let sum = bands_sum(s, l, r, (k - 1) as nat, g);
        let out = crate::dsp::band::band_out(
            s.bands[k - 1],
            band_part(s.left, l, (k - 1) as nat, g),
            band_part(s.right, r, (k - 1) as nat, g),
            g,
        );
        (g(Calc::Add, sum.0, out.0), g(Calc::Add, sum.1, out.1))
    }
}

/// The compander behind a frame.
pub open spec fn compander_next(
    s: CompanderView,
    l: u32,
    r: u32,
    g: spec_fn(Calc, u32, u32) -> u32,
) -> CompanderView {
    CompanderView {
        left: crossovers_next(s.left, l, s.left.len(), g),
        right: crossovers_next(s.right, r, s.right.len(), g),
        bands: bands_next(s, l, r, s.bands.len(), g),
        ..s
    }
}

/// A sample as the compander lets it out.
pub open spec fn let_out(v: u32) -> u32 {
    crate::dsp::arith::limited(crate::dsp::arith::flushed(v))
}

/// A frame behind the compander.
pub open spec fn compander_out(
    s: CompanderView,
    l: u32,
    r: u32,
    g: spec_fn(Calc, u32, u32) -> u32,
) -> (u32, u32) {
    let sum = bands_sum(s, l, r, s.bands.len(), g);
    (let_out(sum.0), let_out(sum.1))
}

/// The bands behind a sample of a single channel that the first `k` have met.
pub open spec fn bands_next_mono(
    s: CompanderView,
    x: u32,
    k: nat,
    g: spec_fn(Calc, u32, u32) -> u32,
) -> Seq<BandView> {
    Seq::new(
        s.bands.len(),
        |i: int|
            if i < k {
                crate::dsp::band::band_next_mono(
                    s.bands[i],
                    band_part(s.left, x, i as nat, g),
                    g,
                )
            } else {
                s.bands[i]
            },
    )
}

/// The sum of the first `k` bands of a single channel.
pub open spec fn bands_sum_mono(
    s: CompanderView,
    x: u32,
    k: nat,
    g: spec_fn(Calc, u32, u32) -> u32,
) -> u32
    decreases k,
{
    if k == 0 {
        0
    } else {
        g(
            Calc::Add,
            bands_sum_mono(s, x, (k - 1) as nat, g),
            crate::dsp::band::band_out_mono(
                s.bands[k - 1],
                band_part(s.left, x, (k - 1) as nat, g),
                g,
            ),
        )
    }
}

/// The compander behind a sample of a single channel; the right side does not take part.
pub open spec fn compander_next_mono(
    s: CompanderView,
    x: u32,
    g: spec_fn(Calc, u32, u32) -> u32,
) -> CompanderView {
    CompanderView {
        left: crossovers_next(s.left, x, s.left.len(), g),
        bands: bands_next_mono(s, x, s.bands.len(), g),
        ..s
    }
}

/// A sample of a single channel behind the compander.
pub open spec fn compander_out_mono(
    s: CompanderView,
    x: u32,
    g: spec_fn(Calc, u32, u32) -> u32,
) -> u32 {
    let_out(bands_sum_mono(s, x, s.bands.len(), g))
}

/// The deepest gains so far with those that the first `k` bands have now.
pub open spec fn noted(lows: Seq<u32>, bands: Seq<BandView>, k: nat) -> Seq<u32> {
    Seq::new(
        lows.len(),
        |i: int|
            if i < k {
                crate::dsp::compander::smaller(lows[i], bands[i].gain_db)
            } else {
                lows[i]
            },
    )
}

/// What frames of a block lead to.
pub struct CompanderRun {
    pub state: CompanderView,
    pub buffer: Seq<u32>,
    /// The deepest gain of each band in the block.
    pub lows: Seq<u32>,
}

/// The first `n` frames of a block with a pair of channels.
pub open spec fn compander_block(
    s: CompanderView,
    buffer: Seq<u32>,
    channels: int,
    n: nat,
    g: spec_fn(Calc, u32, u32) -> u32,
) -> CompanderRun
    decreases n,
{
    if n == 0 {
        CompanderRun { state: s, buffer, lows: crate::dsp::compander::no_reduction() }
    } else {
        let t = compander_block(s, buffer, channels, (n - 1) as nat, g);
        let at = (n - 1) * channels;
        let l = t.buffer[at];
        let r = t.buffer[at + 1];
        let next = compander_next(t.state, l, r, g);
        let out = compander_out(t.state, l, r, g);
        CompanderRun {
            state: next,
            buffer: t.buffer.update(at, out.0).update(at + 1, out.1),
            lows: noted(t.lows, next.bands, 10),
        }
    }
}

/// The first `n` samples of a block with a single channel.
pub open spec fn compander_block_mono(
    s: CompanderView,
    buffer: Seq<u32>,
    n: nat,
    g: spec_fn(Calc, u32, u32) -> u32,
) -> CompanderRun
    decreases n,
{
    if n == 0 {
        CompanderRun { state: s, buffer, lows: crate::dsp::compander::no_reduction() }
    } else {
        let t = compander_block_mono(s, buffer, (n - 1) as nat, g);
        let x = t.buffer[n - 1];
        let next = compander_next_mono(t.state, x, g);
        CompanderRun {
            state: next,
            buffer: t.buffer.update(n - 1, compander_out_mono(t.state, x, g)),
            lows: noted(t.lows, next.bands, 10),
        }
    }
}

/// The states of bands.
pub open spec fn band_views(bands: Seq<BandCompressor>) -> Seq<BandView> {
    bands.map_values(|b: BandCompressor| b@)
}

/// The compander.
pub struct Compander {
    enabled: bool,
    left: Vec<Crossover>,
    right: Vec<Crossover>,
    bands: Vec<BandCompressor>,
}

impl View for Compander {
    type V = CompanderView;

    closed spec fn view(&self) -> CompanderView {
        CompanderView {
            enabled: self.enabled,
            left: self.left@,
            right: self.right@,
            bands: band_views(self.bands@),
        }
    }
}

/// Crossovers at rest.
pub open spec fn crossovers_at_rest(cs: Seq<Coeffs>) -> Seq<Crossover> {
    cs.map_values(|c: Coeffs| crossover_at_rest(c))
}

fn fresh_crossovers(cs: &Vec<Coeffs>) -> (r: Vec<Crossover>)
    ensures
        r@ == crossovers_at_rest(cs@),
{
    let mut out: Vec<Crossover> = Vec::new();
    let mut i: usize = 0;
    while i < cs.len()
        invariant
            i <= cs@.len(),
            out@ == crossovers_at_rest(cs@.subrange(0, i as int)),
        decreases cs@.len() - i,
    {
        out.push(Crossover::new(cs[i]));
        i += 1;
        assert(out@ =~= crossovers_at_rest(cs@.subrange(0, i as int)));
    }
    assert(cs@.subrange(0, i as int) =~= cs@);
    out
}

impl Compander {
    /// There are nine crossovers on each side and ten sound bands.
    pub closed spec fn wf(&self) -> bool {
        &&& self.left@.len() == 9
        &&& self.right@.len() == 9
        &&& self.bands@.len() == BAND_COUNT
        &&& forall|i: int| 0 <= i < BAND_COUNT ==> (#[trigger] self.bands@[i]).wf()
    }

    /// A compander that is switched off, at rest.
    pub fn new(cs: &Vec<Coeffs>, curve: Curve, speeds: Speeds, makeup: u32, lookahead: usize) -> (r:
        Compander)
        requires
            cs@.len() == 9,
        ensures
            r.wf(),
            !r@.enabled,
            r@.left == crossovers_at_rest(cs@) && r@.right == crossovers_at_rest(cs@),
            r@.bands.len() == BAND_COUNT,
            forall|i: int|
                0 <= i < BAND_COUNT ==> #[trigger] r@.bands[i] == crate::dsp::band::band_at_rest(
                    BandView {
                        curve,
                        attack: speeds.attack,
                        release: speeds.release,
                        declick: speeds.declick,
                        makeup,
                        level: 0,
                        gain_db: 0,
                        gain: 0,
                        left: 0,
                        held: Seq::empty(),
                    },
                    lookahead as nat,
                ),
    {
        let mut bands: Vec<BandCompressor> = Vec::new();
        let mut i: usize = 0;
        while i < BAND_COUNT
            invariant
                i <= BAND_COUNT,
                bands@.len() == i,
                forall|k: int| 0 <= k < i ==> (#[trigger] bands@[k]).wf(),
                forall|k: int|
                    0 <= k < i ==> (#[trigger] bands@[k])@ == crate::dsp::band::band_at_rest(
                        BandView {
                            curve,
                            attack: speeds.attack,
                            release: speeds.release,
                            declick: speeds.declick,
                            makeup,
                            level: 0,
                            gain_db: 0,
                            gain: 0,
                            left: 0,
                            held: Seq::empty(),
                        },
                        lookahead as nat,
                    ),
            decreases BAND_COUNT - i,
        {
            bands.push(BandCompressor::new(curve, speeds, makeup, lookahead));
            i += 1;
        }
        Compander {
            enabled: false,
            left: fresh_crossovers(cs),
            right: fresh_crossovers(cs),
            bands,
        }
    }

    /// Comes to rest for a format.
    pub fn prepare(&mut self, cs: &Vec<Coeffs>, lookahead: usize)
        requires
            old(self).wf(),
            cs@.len() == 9,
        ensures
            final(self).wf(),
            final(self)@ == (CompanderView {
                enabled: old(self)@.enabled,
                left: crossovers_at_rest(cs@),
                right: crossovers_at_rest(cs@),
                bands: old(self)@.bands.map_values(
                    |b: BandView| crate::dsp::band::band_at_rest(b, lookahead as nat),
                ),
            }),
    {
        let ghost before = self@.bands;
        let mut i: usize = 0;
        while i < BAND_COUNT
            invariant
                i <= BAND_COUNT,
                self.wf(),
                before.len() == BAND_COUNT,
                self.enabled == old(self).enabled,
                self@.bands.len() == BAND_COUNT,
                forall|k: int|
                    0 <= k < BAND_COUNT ==> #[trigger] self@.bands[k] == (if k < i {
                        crate::dsp::band::band_at_rest(before[k], lookahead as nat)
                    } else {
                        before[k]
                    }),
            decreases BAND_COUNT - i,
        {
            let ghost bands0 = self.bands@;
            let ghost views0 = self@.bands;
            self.bands[i].prepare(lookahead);
            proof {
                assert forall|k: int| 0 <= k < BAND_COUNT implies (
                #[trigger] self.bands@[k]).wf() by {
                    assert(bands0[k].wf());
                }
                assert forall|k: int| 0 <= k < BAND_COUNT implies #[trigger] self@.bands[k] == (
                if k < i + 1 {
                    crate::dsp::band::band_at_rest(before[k], lookahead as nat)
                } else {
                    before[k]
                }) by {
                    assert(self@.bands[k] == self.bands@[k]@);
                    assert(views0[k] == bands0[k]@);
                }
            }
            i += 1;
        }
        self.left = fresh_crossovers(cs);
        self.right = fresh_crossovers(cs);
        assert(self@.bands =~= before.map_values(
            |b: BandView| crate::dsp::band::band_at_rest(b, lookahead as nat),
        ));
    }

    /// Switches the compander on or off.
    pub fn set_enabled(&mut self, enabled: bool)
        requires
            old(self).wf(),
        ensures
            final(self).wf(),
            final(self)@ == (CompanderView { enabled, ..old(self)@ }),
    {
        self.enabled = enabled;
    }

    /// Gives all bands the same settings.
    pub fn set_bands(&mut self, curve: Curve, speeds: Speeds, makeup: u32)
        requires
            old(self).wf(),
        ensures
            final(self).wf(),
            final(self)@ == (CompanderView {
                bands: old(self)@.bands.map_values(
                    |b: BandView|
                        BandView {
                            curve,
                            attack: speeds.attack,
                            release: speeds.release,
                            declick: speeds.declick,
                            makeup,
                            ..b
                        },
                ),
                ..old(self)@
            }),
    {
        let ghost before = self@.bands;
        let mut i: usize = 0;
        while i < BAND_COUNT
            invariant
                i <= BAND_COUNT,
                self.wf(),
                before.len() == BAND_COUNT,
                self@ == (CompanderView { bands: self@.bands, ..old(self)@ }),
                self@.bands.len() == BAND_COUNT,
                forall|k: int|
                    0 <= k < BAND_COUNT ==> #[trigger] self@.bands[k] == (if k < i {
                        BandView {
                            curve,
                            attack: speeds.attack,
                            release: speeds.release,
                            declick: speeds.declick,
                            makeup,
                            ..before[k]
                        }
                    } else {
                        before[k]
                    }),
            decreases BAND_COUNT - i,
        {
            let ghost bands0 = self.bands@;
            let ghost views0 = self@.bands;
            assert(bands0[i as int].wf());
            self.bands[i].set_params(curve, speeds, makeup);
            proof {
                assert forall|k: int| 0 <= k < BAND_COUNT implies (
                #[trigger] self.bands@[k]).wf() by {
                    assert(bands0[k].wf());
                }
                assert forall|k: int| 0 <= k < BAND_COUNT implies #[trigger] self@.bands[k] == (
                if k < i + 1 {
                    BandView {
                        curve,
                        attack: speeds.attack,
                        release: speeds.release,
                        declick: speeds.declick,
                        makeup,
                        ..before[k]
                    }
                } else {
                    before[k]
                }) by {
                    assert(self@.bands[k] == self.bands@[k]@);
                    assert(views0[k] == bands0[k]@);
                }
            }
            i += 1;
        }
        assert(self@.bands =~= before.map_values(
            |b: BandView|
                BandView {
                    curve,
                    attack: speeds.attack,
                    release: speeds.release,
                    declick: speeds.declick,
                    makeup,
                    ..b
                },
        ));
    }

    /// One frame of a pair of channels; the gains of the bands are noted.
    fn frame<F: Fn(Calc, u32, u32) -> u32>(
        &mut self,
        l: u32,
        r: u32,
        lows: &mut BlockGains,
        f: &F,
    ) -> (out: (u32, u32))
        requires
            old(self).wf(),
            crate::dsp::arith::callable(*f),
        ensures
            final(self).wf(),
            forall|g: spec_fn(Calc, u32, u32) -> u32| #[trigger]
                crate::dsp::arith::computes(*f, g) ==> {
                    let next = compander_next(old(self)@, l, r, g);
                    &&& out == compander_out(old(self)@, l, r, g)
                    &&& final(self)@ == next
                    &&& final(lows)@ == noted(old(lows)@, next.bands, 10)
                },
    {
        let ghost s = self@;
        let ghost lows0 = lows@;
        proof {
            crate::dsp::compander::lemma_gains_len(*lows);
        }
        let mut rest_l: u32 = l;
        let mut rest_r: u32 = r;
        let mut sum_l: u32 = 0;
        let mut sum_r: u32 = 0;
        let mut k: usize = 0;
        assert forall|g: spec_fn(Calc, u32, u32) -> u32| #[trigger]
            crate::dsp::arith::computes(*f, g) implies self@ == (CompanderView {
            left: crossovers_next(s.left, l, 0, g),
            right: crossovers_next(s.right, r, 0, g),
            bands: bands_next(s, l, r, 0, g),
            ..s
        }) && lows@ == noted(lows0, bands_next(s, l, r, 0, g), 0) by {
            assert(self@.left =~= crossovers_next(s.left, l, 0, g));
            assert(self@.right =~= crossovers_next(s.right, r, 0, g));
            assert(self@.bands =~= bands_next(s, l, r, 0, g));
            assert(lows@ =~= noted(lows0, bands_next(s, l, r, 0, g), 0));
        }
        while k < BAND_COUNT
            invariant
                k <= BAND_COUNT,
                self.wf(),
                s.left.len() == 9,
                s.right.len() == 9,
                s.bands.len() == BAND_COUNT,
                lows0.len() == BAND_COUNT,
                lows@.len() == BAND_COUNT,
                crate::dsp::arith::callable(*f),
                forall|g: spec_fn(Calc, u32, u32) -> u32| #[trigger]
                    crate::dsp::arith::computes(*f, g) ==> {
                        let seen = if k < 9 {
                            k as nat
                        } else {
                            9
                        };
                        &&& rest_l == left_over(s.left, l, seen, g)
                        &&& rest_r == left_over(s.right, r, seen, g)
                        &&& (sum_l, sum_r) == bands_sum(s, l, r, k as nat, g)
                        &&& self@ == (CompanderView {
                            left: crossovers_next(s.left, l, seen, g),
                            right: crossovers_next(s.right, r, seen, g),
                            bands: bands_next(s, l, r, k as nat, g),
                            ..s
                        })
                        &&& lows@ == noted(lows0, bands_next(s, l, r, k as nat, g), k as nat)
                    },
            decreases BAND_COUNT - k,
        {
            let ghost bands0 = self.bands@;
            let ghost before = self@;
            let ghost lows1 = lows@;
            let mut part_l: u32 = rest_l;
            let mut part_r: u32 = rest_r;
            if k < 9 {
                let mut cl: Crossover = self.left[k];
                let mut cr: Crossover = self.right[k];
                part_l = cl.lowpass(rest_l, f);
                part_r = cr.lowpass(rest_r, f);
                self.left.set(k, cl);
                self.right.set(k, cr);
                rest_l = apply(f, Calc::Sub, rest_l, part_l);
                rest_r = apply(f, Calc::Sub, rest_r, part_r);
            }
            assert(bands0[k as int].wf());
            let (bl, br): (u32, u32) = self.bands[k].process_frame(part_l, part_r, f);
            sum_l = apply(f, Calc::Add, sum_l, bl);
            sum_r = apply(f, Calc::Add, sum_r, br);
            let gain: u32 = self.bands[k].current_gain_db();
            lows.note(k, gain);
            proof {
                assert forall|i: int| 0 <= i < BAND_COUNT implies (
                #[trigger] self.bands@[i]).wf() by {
                    assert(bands0[i].wf());
                }
                assert forall|g: spec_fn(Calc, u32, u32) -> u32| #[trigger]
                    crate::dsp::arith::computes(*f, g) implies ({
                    let more = (k + 1) as nat;
                    let seen = if more < 9 {
                        more
                    } else {
                        9
                    };
                    &&& rest_l == left_over(s.left, l, seen, g)
                    &&& rest_r == left_over(s.right, r, seen, g)
                    &&& (sum_l, sum_r) == bands_sum(s, l, r, more, g)
                    &&& self@ == (CompanderView {
                        left: crossovers_next(s.left, l, seen, g),
                        right: crossovers_next(s.right, r, seen, g),
                        bands: bands_next(s, l, r, more, g),
                        ..s
                    })
                    &&& lows@ == noted(lows0, bands_next(s, l, r, more, g), more)
                }) by {
                    let more = (k + 1) as nat;
                    let seen = if more < 9 {
                        more
                    } else {
                        9
                    };
                    let was = if k < 9 {
                        k as nat
                    } else {
                        9
                    };
                    assert(before.left == crossovers_next(s.left, l, was, g));
                    assert(before.right == crossovers_next(s.right, r, was, g));
                    assert(before.bands == bands_next(s, l, r, k as nat, g));
                    assert(before.bands[k as int] == s.bands[k as int]);
                    assert(before.bands[k as int] == bands0[k as int]@);
                    if k < 9 {
                        assert(before.left[k as int] == s.left[k as int]);
                        assert(before.right[k as int] == s.right[k as int]);
                    }
                    assert(part_l == band_part(s.left, l, k as nat, g));
                    assert(part_r == band_part(s.right, r, k as nat, g));
                    assert(self@.left =~= crossovers_next(s.left, l, seen, g));
                    assert(self@.right =~= crossovers_next(s.right, r, seen, g));
                    assert forall|i: int| 0 <= i < BAND_COUNT implies #[trigger] self@.bands[i]
                        == bands_next(s, l, r, more, g)[i] by {
                        assert(self@.bands[i] == self.bands@[i]@);
                        assert(before.bands[i] == bands0[i]@);
                    }
                    assert(self@.bands =~= bands_next(s, l, r, more, g));
                    assert(lows1 == noted(lows0, bands_next(s, l, r, k as nat, g), k as nat));
                    assert(lows@ =~= noted(lows0, bands_next(s, l, r, more, g), more));
                }
            }
            k += 1;
        }
        (limit(flush(sum_l)), limit(flush(sum_r)))
    }

    /// One sample of a single channel; the gains of the bands are noted.
    fn sample<F: Fn(Calc, u32, u32) -> u32>(&mut self, x: u32, lows: &mut BlockGains, f: &F) -> (out:
        u32)
        requires
            old(self).wf(),
            crate::dsp::arith::callable(*f),
        ensures
            final(self).wf(),
            forall|g: spec_fn(Calc, u32, u32) -> u32| #[trigger]
                crate::dsp::arith::computes(*f, g) ==> {
                    let next = compander_next_mono(old(self)@, x, g);
                    &&& out == compander_out_mono(old(self)@, x, g)
                    &&& final(self)@ == next
                    &&& final(lows)@ == noted(old(lows)@, next.bands, 10)
                },
    {
        let ghost s = self@;
        let ghost lows0 = lows@;
        proof {
            crate::dsp::compander::lemma_gains_len(*lows);
        }
        let mut rest: u32 = x;
        let mut sum: u32 = 0;
        let mut k: usize = 0;
        assert forall|g: spec_fn(Calc, u32, u32) -> u32| #[trigger]
            crate::dsp::arith::computes(*f, g) implies self@ == (CompanderView {
            left: crossovers_next(s.left, x, 0, g),
            bands: bands_next_mono(s, x, 0, g),
            ..s
        }) && lows@ == noted(lows0, bands_next_mono(s, x, 0, g), 0) by {
            assert(self@.left =~= crossovers_next(s.left, x, 0, g));
            assert(self@.bands =~= bands_next_mono(s, x, 0, g));
            assert(lows@ =~= noted(lows0, bands_next_mono(s, x, 0, g), 0));
        }
        while k < BAND_COUNT
            invariant
                k <= BAND_COUNT,
                self.wf(),
                s.left.len() == 9,
                s.bands.len() == BAND_COUNT,
                lows0.len() == BAND_COUNT,
                lows@.len() == BAND_COUNT,
                crate::dsp::arith::callable(*f),
                forall|g: spec_fn(Calc, u32, u32) -> u32| #[trigger]
                    crate::dsp::arith::computes(*f, g) ==> {
                        let seen = if k < 9 {
                            k as nat
                        } else {
                            9
                        };
                        &&& rest == left_over(s.left, x, seen, g)
                        &&& sum == bands_sum_mono(s, x, k as nat, g)
                        &&& self@ == (CompanderView {
                            left: crossovers_next(s.left, x, seen, g),
                            bands: bands_next_mono(s, x, k as nat, g),
                            ..s
                        })
                        &&& lows@ == noted(lows0, bands_next_mono(s, x, k as nat, g), k as nat)
                    },
            decreases BAND_COUNT - k,
        {
            let ghost bands0 = self.bands@;
            let ghost before = self@;
            let ghost lows1 = lows@;
            let mut part: u32 = rest;
            if k < 9 {
                let mut c: Crossover = self.left[k];
                part = c.lowpass(rest, f);
                self.left.set(k, c);
                rest = apply(f, Calc::Sub, rest, part);
            }
            assert(bands0[k as int].wf());
            let b: u32 = self.bands[k].process_frame_mono(part, f);
            sum = apply(f, Calc::Add, sum, b);
            let gain: u32 = self.bands[k].current_gain_db();
            lows.note(k, gain);
            proof {
                assert forall|i: int| 0 <= i < BAND_COUNT implies (
                #[trigger] self.bands@[i]).wf() by {
                    assert(bands0[i].wf());
                }
                assert forall|g: spec_fn(Calc, u32, u32) -> u32| #[trigger]
                    crate::dsp::arith::computes(*f, g) implies ({
                    let more = (k + 1) as nat;
                    let seen = if more < 9 {
                        more
                    } else {
                        9
                    };
                    &&& rest == left_over(s.left, x, seen, g)
                    &&& sum == bands_sum_mono(s, x, more, g)
                    &&& self@ == (CompanderView {
                        left: crossovers_next(s.left, x, seen, g),
                        bands: bands_next_mono(s, x, more, g),
                        ..s
                    })
                    &&& lows@ == noted(lows0, bands_next_mono(s, x, more, g), more)
                }) by {
                    let more = (k + 1) as nat;
                    let seen = if more < 9 {
                        more
                    } else {
                        9
                    };
                    let was = if k < 9 {
                        k as nat
                    } else {
                        9
                    };
                    assert(before.left == crossovers_next(s.left, x, was, g));
                    assert(before.bands == bands_next_mono(s, x, k as nat, g));
                    assert(before.bands[k as int] == s.bands[k as int]);
                    assert(before.bands[k as int] == bands0[k as int]@);
                    if k < 9 {
                        assert(before.left[k as int] == s.left[k as int]);
                    }
                    assert(part == band_part(s.left, x, k as nat, g));
                    assert(self@.left =~= crossovers_next(s.left, x, seen, g));
                    assert forall|i: int| 0 <= i < BAND_COUNT implies #[trigger] self@.bands[i]
                        == bands_next_mono(s, x, more, g)[i] by {
                        assert(self@.bands[i] == self.bands@[i]@);
                        assert(before.bands[i] == bands0[i]@);
                    }
                    assert(self@.bands =~= bands_next_mono(s, x, more, g));
                    assert(lows1 == noted(lows0, bands_next_mono(s, x, k as nat, g), k as nat));
                    assert(lows@ =~= noted(lows0, bands_next_mono(s, x, more, g), more));
                }
            }
            k += 1;
        }
        limit(flush(sum))
    }

    /// Processes a block in place and reports the deepest gain of each band. A compander that is
    /// off leaves the block alone and reports no reduction.
    pub fn process<F: Fn(Calc, u32, u32) -> u32>(
        &mut self,
        buffer: &mut Vec<u32>,
        channels: usize,
        meter: &mut CompanderMeter,
        f: &F,
    )
        requires
            old(self).wf(),
            crate::dsp::arith::callable(*f),
        ensures
            final(self).wf(),
            final(buffer)@.len() == old(buffer)@.len(),
            !old(self)@.enabled || channels == 0 ==> {
                &&& final(buffer)@ == old(buffer)@
                &&& final(self)@ == old(self)@
                &&& final(meter)@ == crate::dsp::compander::no_reduction()
            },
            old(self)@.enabled && channels > 0 ==> forall|g: spec_fn(Calc, u32, u32) -> u32|
             #[trigger]
                crate::dsp::arith::computes(*f, g) ==> (if channels >= 2 {
                    compander_block(
                        old(self)@,
                        old(buffer)@,
                        channels as int,
                        old(buffer)@.len() / (channels as nat),
                        g,
                    )
                } else {
                    compander_block_mono(old(self)@, old(buffer)@, old(buffer)@.len(), g)
                }) == (CompanderRun {
                    state: final(self)@,
                    buffer: final(buffer)@,
                    lows: final(meter)@,
                }),
    {
        let mut lows = BlockGains::new();
        if !self.enabled || channels == 0 {
            lows.publish(false, meter);
            return;
        }
        let ghost start = self@;
        if channels >= 2 {
            let frames: usize = buffer.len() / channels;
            let mut n: usize = 0;
            while n < frames
                invariant
                    n <= frames,
                    channels >= 2,
                    frames == buffer@.len() / (channels as nat),
                    buffer@.len() == old(buffer)@.len(),
                    self.wf(),
                    crate::dsp::arith::callable(*f),
                    forall|g: spec_fn(Calc, u32, u32) -> u32| #[trigger]
                        crate::dsp::arith::computes(*f, g) ==> compander_block(
                            start,
                            old(buffer)@,
                            channels as int,
                            n as nat,
                            g,
                        ) == (CompanderRun { state: self@, buffer: buffer@, lows: lows@ }),
                decreases frames - n,
            {
                let len: usize = buffer.len();
                proof {
                    crate::dsp::arith::lemma_frame_inside(n as int, len as int, channels as int);
                }
                assert(n * channels + channels <= len);
                let at: usize = n * channels;
                let (l, r): (u32, u32) = self.frame(buffer[at], buffer[at + 1], &mut lows, f);
                buffer.set(at, l);
                buffer.set(at + 1, r);
                n += 1;
            }
        } else {
            let mut n: usize = 0;
            while n < buffer.len()
                invariant
                    n <= buffer@.len(),
                    buffer@.len() == old(buffer)@.len(),
                    self.wf(),
                    crate::dsp::arith::callable(*f),
                    forall|g: spec_fn(Calc, u32, u32) -> u32| #[trigger]
                        crate::dsp::arith::computes(*f, g) ==> compander_block_mono(
                            start,
                            old(buffer)@,
                            n as nat,
                            g,
                        ) == (CompanderRun { state: self@, buffer: buffer@, lows: lows@ }),
                decreases buffer@.len() - n,
            {
                let x: u32 = self.sample(buffer[n], &mut lows, f);
                buffer.set(n, x);
                n += 1;
            }
        }
        lows.publish(true, meter);
    }
}

/// The values of the parts that the first `k` bands get, added up exactly.
pub open spec fn parts_total(
    cs: Seq<Crossover>,
    x: u32,
    k: nat,
    g: spec_fn(Calc, u32, u32) -> u32,
    value: spec_fn(u32) -> int,
) -> int
    decreases k,
{
    if k == 0 {
        0
    } else {
        parts_total(cs, x, (k - 1) as nat, g, value) + value(band_part(cs, x, (k - 1) as nat, g))
    }
}

/// Nothing is lost between the bands: where differences are exact, the parts that all bands get
/// add up to the sample, whatever the filters are.
pub proof fn law_bands_add_up(
    cs: Seq<Crossover>,
    x: u32,
    g: spec_fn(Calc, u32, u32) -> u32,
    value: spec_fn(u32) -> int,
)
    requires
        forall|a: u32, b: u32|
            value(#[trigger] g(Calc::Sub, a, b)) == value(a) - value(b),
    ensures
        parts_total(cs, x, cs.len() + 1, g, value) == value(x),
{
    lemma_parts(cs, x, cs.len(), g, value);
}

proof fn lemma_parts(
    cs: Seq<Crossover>,
    x: u32,
    k: nat,
    g: spec_fn(Calc, u32, u32) -> u32,
    value: spec_fn(u32) -> int,
)
    requires
        k <= cs.len(),
        forall|a: u32, b: u32|
            value(#[trigger] g(Calc::Sub, a, b)) == value(a) - value(b),
    ensures
        parts_total(cs, x, k, g, value) + value(left_over(cs, x, k, g)) == value(x),
    decreases k,
{
    if k > 0 {
        lemma_parts(cs, x, (k - 1) as nat, g, value);
        let rest = left_over(cs, x, (k - 1) as nat, g);
        let low = low_part(cs[k - 1], rest, g);
        assert(value(g(Calc::Sub, rest, low)) == value(rest) - value(low));
    }
}

/// Both sides of a band hold the same.
pub open spec fn twin_band(b: BandView) -> bool {
    forall|i: int| 0 <= i < b.held.len() ==> (#[trigger] b.held[i]).0 == b.held[i].1
}

/// Both sides of the compander are the same.
pub open spec fn twin(s: CompanderView) -> bool {
    &&& s.left == s.right
    &&& forall|i: int| 0 <= i < s.bands.len() ==> twin_band(#[trigger] s.bands[i])
}

/// Two bands are the same on the left side.
pub open spec fn same_left_band(a: BandView, b: BandView) -> bool {
    &&& a == (BandView { held: a.held, ..b })
    &&& a.held.len() == b.held.len()
    &&& forall|i: int| 0 <= i < a.held.len() ==> (#[trigger] a.held[i]).0 == b.held[i].0
}

/// Two companders are the same on the left side.
pub open spec fn same_left(a: CompanderView, b: CompanderView) -> bool {
    &&& a.enabled == b.enabled
    &&& a.left == b.left
    &&& a.bands.len() == b.bands.len()
    &&& forall|i: int| 0 <= i < a.bands.len() ==> same_left_band(#[trigger] a.bands[i], b.bands[i])
}

proof fn lemma_twin_band(a: BandView, b: BandView, x: u32, g: spec_fn(Calc, u32, u32) -> u32)
    requires
        twin_band(a),
        same_left_band(a, b),
    ensures
        twin_band(crate::dsp::band::band_next(a, x, x, g)),
        same_left_band(
            crate::dsp::band::band_next(a, x, x, g),
            crate::dsp::band::band_next_mono(b, x, g),
        ),
        crate::dsp::band::band_out(a, x, x, g).0 == crate::dsp::band::band_out_mono(b, x, g),
        crate::dsp::band::band_out(a, x, x, g).1 == crate::dsp::band::band_out_mono(b, x, g),
{
    let m = crate::float_bits::magnitude(x) as u32;
    assert(crate::dsp::band::frame_top(x, x) == m);
    let an = crate::dsp::band::gain_next(a, m, g);
    let bn = crate::dsp::band::gain_next(b, m, g);
    assert(an == (BandView { held: an.held, ..bn }));
    if a.held.len() > 0 {
        assert(a.held.last() == a.held[a.held.len() - 1]);
        assert(b.held.last() == b.held[b.held.len() - 1]);
        let na = crate::dsp::band::band_next(a, x, x, g);
        let nb = crate::dsp::band::band_next_mono(b, x, g);
        assert forall|i: int| 0 <= i < na.held.len() implies (#[trigger] na.held[i]).0
            == na.held[i].1 && na.held[i].0 == nb.held[i].0 by {
            if i > 0 {
                assert(na.held[i] == a.held[i - 1]);
                assert(nb.held[i] == b.held[i - 1]);
            }
        }
    }
}

proof fn lemma_twin_sum(
    s: CompanderView,
    t: CompanderView,
    x: u32,
    k: nat,
    g: spec_fn(Calc, u32, u32) -> u32,
)
    requires
        twin(s),
        same_left(s, t),
        k <= s.bands.len(),
    ensures
        bands_sum(s, x, x, k, g).0 == bands_sum_mono(t, x, k, g),
        bands_sum(s, x, x, k, g).1 == bands_sum_mono(t, x, k, g),
    decreases k,
{
    if k > 0 {
        lemma_twin_sum(s, t, x, (k - 1) as nat, g);
        let part = band_part(s.left, x, (k - 1) as nat, g);
        assert(same_left_band(s.bands[k - 1], t.bands[k - 1]));
        assert(twin_band(s.bands[k - 1]));
        lemma_twin_band(s.bands[k - 1], t.bands[k - 1], part, g);
    }
}

/// A single channel is half of a pair: where both channels carry the same, each comes out as the
/// single channel would, and this stays so frame after frame.
pub proof fn law_mono_is_half_of_stereo(
    s: CompanderView,
    t: CompanderView,
    x: u32,
    g: spec_fn(Calc, u32, u32) -> u32,
)
    requires
        twin(s),
        same_left(s, t),
    ensures
        compander_out(s, x, x, g) == (compander_out_mono(t, x, g), compander_out_mono(t, x, g)),
        twin(compander_next(s, x, x, g)),
        same_left(compander_next(s, x, x, g), compander_next_mono(t, x, g)),
{
    lemma_twin_sum(s, t, x, s.bands.len(), g);
    let ns = compander_next(s, x, x, g);
    let nt = compander_next_mono(t, x, g);
    assert forall|i: int| 0 <= i < ns.bands.len() implies twin_band(#[trigger] ns.bands[i])
        && same_left_band(ns.bands[i], nt.bands[i]) by {
        assert(same_left_band(s.bands[i], t.bands[i]));
        assert(twin_band(s.bands[i]));
        lemma_twin_band(s.bands[i], t.bands[i], band_part(s.left, x, i as nat, g), g);
    }
}

/// A single channel that both channels of a pair carry.
pub open spec fn doubled(x: Seq<u32>) -> Seq<u32> {
    Seq::new(2 * x.len(), |i: int| x[i / 2])
}

proof fn lemma_double_block(
    s: CompanderView,
    t: CompanderView,
    x: Seq<u32>,
    n: nat,
    g: spec_fn(Calc, u32, u32) -> u32,
)
    requires
        twin(s),
        same_left(s, t),
        s.bands.len() == 10,
        n <= x.len(),
    ensures
        ({
            let pair = compander_block(s, doubled(x), 2, n, g);
            let one = compander_block_mono(t, x, n, g);
            &&& twin(pair.state)
            &&& same_left(pair.state, one.state)
            &&& pair.state.bands.len() == 10
            &&& one.buffer.len() == x.len()
            &&& pair.buffer == doubled(one.buffer)
            &&& pair.lows == one.lows
            &&& pair.lows.len() == 10
        }),
    decreases n,
{
    if n > 0 {
        let m = (n - 1) as nat;
        lemma_double_block(s, t, x, m, g);
        let pair = compander_block(s, doubled(x), 2, m, g);
        let one = compander_block_mono(t, x, m, g);
        let v = one.buffer[m as int];
        let at = m as int * 2;
        assert(pair.buffer[at] == v);
        assert(pair.buffer[at + 1] == v);
        law_mono_is_half_of_stereo(pair.state, one.state, v, g);
        let next = compander_next(pair.state, v, v, g);
        let single = compander_next_mono(one.state, v, g);
        let out = compander_out_mono(one.state, v, g);
        assert(pair.buffer.update(at, out).update(at + 1, out) =~= doubled(
            one.buffer.update(m as int, out),
        ));
        assert(noted(pair.lows, next.bands, 10) =~= noted(one.lows, single.bands, 10)) by {
            assert forall|i: int| 0 <= i < 10 implies (#[trigger] next.bands[i]).gain_db
                == single.bands[i].gain_db by {
                assert(same_left_band(next.bands[i], single.bands[i]));
            }
        }
    }
}

/// A whole block of a single channel comes out as each channel of a pair does that carries it
/// twice: the same samples, the same reduction in every band, and the same state on the left side.
pub proof fn law_a_mono_block_is_half_of_a_stereo_block(
    s: CompanderView,
    t: CompanderView,
    x: Seq<u32>,
    g: spec_fn(Calc, u32, u32) -> u32,
)
    requires
        twin(s),
        same_left(s, t),
        s.bands.len() == 10,
    ensures
        ({
            let frames = doubled(x).len() / 2;
            let pair = compander_block(s, doubled(x), 2, frames, g);
            let one = compander_block_mono(t, x, x.len(), g);
            &&& pair.buffer == doubled(one.buffer)
            &&& pair.lows == one.lows
            &&& twin(pair.state)
            &&& same_left(pair.state, one.state)
        }),
{
    lemma_double_block(s, t, x, x.len(), g);
}

} // verus!
