//! Raises and lowers the sample rate by four, with one filter that is laid out by phases.

use vstd::prelude::*;
use crate::dsp::arith::{apply, Calc};
use crate::dsp::delay::{silence, Ring};

verus! {

/// By how much the sample rate is raised.
pub const OVERSAMPLE: usize = 4;

/// The number of taps of the filter.
pub const NUM_TAPS: usize = 136;

/// The number of taps of each of its phases.
pub const TAPS_PER_PHASE: usize = 34;

/// Where a tap is stored: by its phase, and within it in order.
pub open spec fn slot_of(tap: int) -> int {
    (tap % 4) * 34 + tap / 4
}

/// Which tap is stored at a place.
pub open spec fn tap_at(slot: int) -> int {
    (slot % 34) * 4 + slot / 34
}

/// Every tap has one place, and every place one tap.
pub proof fn law_every_tap_has_one_place(n: int)
    requires
        0 <= n < NUM_TAPS,
    ensures
        0 <= slot_of(n) < NUM_TAPS,
        tap_at(slot_of(n)) == n,
        0 <= tap_at(n) < NUM_TAPS,
        slot_of(tap_at(n)) == n,
{
}

/// The taps by phases.
pub fn polyphase(taps: &Vec<u32>) -> (r: Vec<u32>)
    requires
        taps@.len() == NUM_TAPS,
    ensures
        r@.len() == NUM_TAPS,
        forall|slot: int| 0 <= slot < NUM_TAPS ==> #[trigger] r@[slot] == taps@[tap_at(slot)],
{
    let mut out: Vec<u32> = Vec::new();
    let mut slot: usize = 0;
    while slot < NUM_TAPS
        invariant
            slot <= NUM_TAPS,
            taps@.len() == NUM_TAPS,
            out@.len() == slot,
            forall|k: int| 0 <= k < slot ==> #[trigger] out@[k] == taps@[tap_at(k)],
        decreases NUM_TAPS - slot,
    {
        let tap: usize = (slot % TAPS_PER_PHASE) * OVERSAMPLE + slot / TAPS_PER_PHASE;
        out.push(taps[tap]);
        slot += 1;
    }
    out
}

/// By how many samples of the lower rate going up and down again is late.
pub fn latency_samples() -> (r: usize)
    ensures
        r == 33,
        (r + 1) * OVERSAMPLE == NUM_TAPS,
{
    NUM_TAPS / OVERSAMPLE - 1
}

/// A sum with the first `n` taps of a phase applied to a past, the newest sample to the first tap.
pub open spec fn phase_sum(
    sum: u32,
    taps: Seq<u32>,
    phase: int,
    past: Seq<u32>,
    n: nat,
    g: spec_fn(Calc, u32, u32) -> u32,
) -> u32
    decreases n,
{
    if n == 0 {
        sum
    } else {
        g(
            Calc::Add,
            phase_sum(sum, taps, phase, past, (n - 1) as nat, g),
            g(Calc::Mul, taps[phase * 34 + (n - 1)], past[n - 1]),
        )
    }
}

fn add_phase<F: Fn(Calc, u32, u32) -> u32>(
    sum: u32,
    taps: &Vec<u32>,
    phase: usize,
    past: &Ring<u32>,
    f: &F,
) -> (r: u32)
    requires
        taps@.len() == NUM_TAPS,
        phase < OVERSAMPLE,
        past.wf(),
        past.past().len() == TAPS_PER_PHASE,
        crate::dsp::arith::callable(*f),
    ensures
        forall|g: spec_fn(Calc, u32, u32) -> u32| #[trigger]
            crate::dsp::arith::computes(*f, g) ==> r == phase_sum(
                sum,
                taps@,
                phase as int,
                past.past(),
                34,
                g,
            ),
{
    let mut acc: u32 = sum;
    let mut k: usize = 0;
    while k < TAPS_PER_PHASE
        invariant
            k <= TAPS_PER_PHASE,
            taps@.len() == NUM_TAPS,
            phase < OVERSAMPLE,
            past.wf(),
            past.past().len() == TAPS_PER_PHASE,
            crate::dsp::arith::callable(*f),
            forall|g: spec_fn(Calc, u32, u32) -> u32| #[trigger]
                crate::dsp::arith::computes(*f, g) ==> acc == phase_sum(
                    sum,
                    taps@,
                    phase as int,
                    past.past(),
                    k as nat,
                    g,
                ),
        decreases TAPS_PER_PHASE - k,
    {
        let x: u32 = *past.tap(k + 1);
        let part: u32 = apply(f, Calc::Mul, taps[phase * TAPS_PER_PHASE + k], x);
        acc = apply(f, Calc::Add, acc, part);
        k += 1;
    }
    acc
}

/// The state of an oversampler.
pub struct OversampleView {
    /// The taps for going up and for going down, by phases.
    pub up_taps: Seq<u32>,
    pub down_taps: Seq<u32>,
    /// The samples of the lower rate, the newest first.
    pub low: Seq<u32>,
    /// The samples of the higher rate, by phases, the newest first.
    pub high: Seq<Seq<u32>>,
}

/// The four samples that a sample of the lower rate becomes.
pub open spec fn raised(
    s: OversampleView,
    x: u32,
    g: spec_fn(Calc, u32, u32) -> u32,
) -> Seq<u32> {
    let low = crate::dsp::delay::pushed(s.low, x);
    Seq::new(4, |p: int| phase_sum(0, s.up_taps, p, low, 34, g))
}

/// The oversampler behind a sample that was raised.
pub open spec fn raised_next(s: OversampleView, x: u32) -> OversampleView {
    OversampleView { low: crate::dsp::delay::pushed(s.low, x), ..s }
}

/// The past of the higher rate with the first `n` of four samples taken in.
pub open spec fn high_next(high: Seq<Seq<u32>>, four: Seq<u32>, n: nat) -> Seq<Seq<u32>> {
    Seq::new(
        high.len(),
        |p: int|
            if p < n {
                crate::dsp::delay::pushed(high[p], four[p])
            } else {
                high[p]
            },
    )
}

/// The sum of the first `n` phases over four samples of the higher rate.
pub open spec fn lowered_sum(
    s: OversampleView,
    four: Seq<u32>,
    n: nat,
    g: spec_fn(Calc, u32, u32) -> u32,
) -> u32
    decreases n,
{
    if n == 0 {
        0
    } else {
        phase_sum(
            lowered_sum(s, four, (n - 1) as nat, g),
            s.down_taps,
            n - 1,
            crate::dsp::delay::pushed(s.high[n - 1], four[n - 1]),
            34,
            g,
        )
    }
}

/// The oversampler behind four samples that were lowered.
pub open spec fn lowered_next(s: OversampleView, four: Seq<u32>) -> OversampleView {
    OversampleView { high: high_next(s.high, four, 4), ..s }
}

/// Silence that is as long as a phase.
pub open spec fn quiet_phase() -> Seq<u32> {
    Seq::new(34, |i: int| 0u32)
}

/// Raises and lowers the sample rate of one channel.
pub struct Oversampler4x {
    up_taps: Vec<u32>,
    down_taps: Vec<u32>,
    low: Ring<u32>,
    high: Vec<Ring<u32>>,
}

impl View for Oversampler4x {
    type V = OversampleView;

    closed spec fn view(&self) -> OversampleView {
        OversampleView {
            up_taps: self.up_taps@,
            down_taps: self.down_taps@,
            low: self.low.past(),
            high: self.high@.map_values(|r: Ring<u32>| r.past()),
        }
    }
}

fn quiet_ring() -> (r: Ring<u32>)
    ensures
        r.wf(),
        r.past() == quiet_phase(),
{
    let buf = silence(TAPS_PER_PHASE);
    assert(buf@.reverse() =~= quiet_phase());
    Ring::new(buf)
}

impl Oversampler4x {
    /// All taps are there, and every line is as long as a phase.
    pub closed spec fn wf(&self) -> bool {
        &&& self.up_taps@.len() == NUM_TAPS
        &&& self.down_taps@.len() == NUM_TAPS
        &&& self.low.wf()
        &&& self.low.past().len() == TAPS_PER_PHASE
        &&& self.high@.len() == OVERSAMPLE
        &&& forall|p: int|
            0 <= p < OVERSAMPLE ==> (#[trigger] self.high@[p]).wf()
                && self.high@[p].past().len() == TAPS_PER_PHASE
    }

    /// A silent oversampler for the taps of its filter, in order, for going up and for going down.
    pub fn new(up: &Vec<u32>, down: &Vec<u32>) -> (r: Oversampler4x)
        requires
            up@.len() == NUM_TAPS,
            down@.len() == NUM_TAPS,
        ensures
            r.wf(),
            r@.up_taps == Seq::new(136, |slot: int| up@[tap_at(slot)]),
            r@.down_taps == Seq::new(136, |slot: int| down@[tap_at(slot)]),
            r@.low == quiet_phase(),
            r@.high == Seq::new(4, |p: int| quiet_phase()),
    {
        let up_taps = polyphase(up);
        let down_taps = polyphase(down);
        let mut high: Vec<Ring<u32>> = Vec::new();
        let mut p: usize = 0;
        while p < OVERSAMPLE
            invariant
                p <= OVERSAMPLE,
                high@.len() == p,
                forall|k: int|
                    0 <= k < p ==> (#[trigger] high@[k]).wf() && high@[k].past() == quiet_phase(),
            decreases OVERSAMPLE - p,
        {
            high.push(quiet_ring());
            p += 1;
        }
        let r = Oversampler4x { up_taps, down_taps, low: quiet_ring(), high };
        assert(r@.up_taps =~= Seq::new(136, |slot: int| up@[tap_at(slot)]));
        assert(r@.down_taps =~= Seq::new(136, |slot: int| down@[tap_at(slot)]));
        assert(r@.high =~= Seq::new(4, |p: int| quiet_phase()));
        r
    }

    /// Forgets the past.
    pub fn reset(&mut self)
        requires
            old(self).wf(),
        ensures
            final(self).wf(),
            final(self)@ == (OversampleView {
                low: quiet_phase(),
                high: Seq::new(4, |p: int| quiet_phase()),
                ..old(self)@
            }),
    {
        self.low = quiet_ring();
        let mut high: Vec<Ring<u32>> = Vec::new();
        let mut p: usize = 0;
        while p < OVERSAMPLE
            invariant
                p <= OVERSAMPLE,
                high@.len() == p,
                forall|k: int|
                    0 <= k < p ==> (#[trigger] high@[k]).wf() && high@[k].past() == quiet_phase(),
            decreases OVERSAMPLE - p,
        {
            high.push(quiet_ring());
            p += 1;
        }
        self.high = high;
        assert(self@.high =~= Seq::new(4, |p: int| quiet_phase()));
    }

    /// Raises one sample to four.
    pub fn upsample<F: Fn(Calc, u32, u32) -> u32>(&mut self, x: u32, f: &F) -> (r: [u32; 4])
        requires
            old(self).wf(),
            crate::dsp::arith::callable(*f),
        ensures
            final(self).wf(),
            final(self)@ == raised_next(old(self)@, x),
            forall|g: spec_fn(Calc, u32, u32) -> u32| #[trigger]
                crate::dsp::arith::computes(*f, g) ==> r@ == raised(old(self)@, x, g),
    {
        let ghost s = self@;
        self.low.push(x);
        let a: u32 = add_phase(0, &self.up_taps, 0, &self.low, f);
        let b: u32 = add_phase(0, &self.up_taps, 1, &self.low, f);
        let c: u32 = add_phase(0, &self.up_taps, 2, &self.low, f);
        let d: u32 = add_phase(0, &self.up_taps, 3, &self.low, f);
        let r: [u32; 4] = [a, b, c, d];
        assert forall|g: spec_fn(Calc, u32, u32) -> u32| #[trigger]
            crate::dsp::arith::computes(*f, g) implies r@ == raised(s, x, g) by {
            assert(r@ =~= raised(s, x, g));
        }
        r
    }

    /// Lowers four samples to one.
    pub fn downsample<F: Fn(Calc, u32, u32) -> u32>(&mut self, four: &[u32; 4], f: &F) -> (r: u32)
        requires
            old(self).wf(),
            crate::dsp::arith::callable(*f),
        ensures
            final(self).wf(),
            final(self)@ == lowered_next(old(self)@, four@),
            forall|g: spec_fn(Calc, u32, u32) -> u32| #[trigger]
                crate::dsp::arith::computes(*f, g) ==> r == lowered_sum(old(self)@, four@, 4, g),
    {
        let ghost s = self@;
        let mut sum: u32 = 0;
        let mut p: usize = 0;
        assert(self@.high =~= high_next(s.high, four@, 0));
        while p < OVERSAMPLE
            invariant
                p <= OVERSAMPLE,
                self.wf(),
                s.high.len() == OVERSAMPLE,
                forall|k: int|
                    0 <= k < OVERSAMPLE ==> (#[trigger] s.high[k]).len() == TAPS_PER_PHASE,
                self@ == (OversampleView { high: high_next(s.high, four@, p as nat), ..s }),
                crate::dsp::arith::callable(*f),
                forall|g: spec_fn(Calc, u32, u32) -> u32| #[trigger]
                    crate::dsp::arith::computes(*f, g) ==> sum == lowered_sum(
                        s,
                        four@,
                        p as nat,
                        g,
                    ),
            decreases OVERSAMPLE - p,
        {
            let ghost rings0 = self.high@;
            let ghost views0 = self@.high;
            assert(rings0[p as int].wf());
            assert(views0[p as int] == rings0[p as int].past());
            self.high[p].push(four[p]);
            proof {
                assert forall|k: int| 0 <= k < OVERSAMPLE implies (#[trigger] self.high@[k]).wf()
                    && self.high@[k].past().len() == TAPS_PER_PHASE by {
                    assert(rings0[k].wf());
                }
                assert forall|k: int| 0 <= k < OVERSAMPLE implies #[trigger] self@.high[k]
                    == high_next(s.high, four@, (p + 1) as nat)[k] by {
                    assert(self@.high[k] == self.high@[k].past());
                    assert(views0[k] == rings0[k].past());
                }
                assert(self@.high =~= high_next(s.high, four@, (p + 1) as nat));
                assert(self.high@[p as int].past() == self@.high[p as int]);
            }
            sum = add_phase(sum, &self.down_taps, p, &self.high[p], f);
            p += 1;
        }
        sum
    }
}

} // verus!
