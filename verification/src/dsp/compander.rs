//! What the multiband compander reports and when it recomputes.

use vstd::prelude::*;
use crate::float_bits::{is_undefined, less_than, same_value};
use crate::types::CompanderState;

verus! {

/// The number of bands.
pub const BAND_COUNT: usize = 10;

/// After how many frames the gain of a band is computed anew.
pub const CTRL_INTERVAL: usize = 8;

/// The gain reduction of each band in dB, as it was last reported.
#[derive(Debug, Clone, Copy, PartialEq, Eq)]
pub struct CompanderMeter {
    bands: [u32; 10],
}

impl View for CompanderMeter {
    type V = Seq<u32>;

    closed spec fn view(&self) -> Seq<u32> {
        self.bands@
    }
}

/// No reduction in any band.
pub open spec fn no_reduction() -> Seq<u32> {
    Seq::new(10, |i: int| 0u32)
}

impl CompanderMeter {
    /// A meter that shows no reduction.
    pub fn new() -> (r: CompanderMeter)
        ensures
            r@ == no_reduction(),
    {
        let bands: [u32; 10] = [0; 10];
        assert(bands@ =~= no_reduction());
        CompanderMeter { bands }
    }

    /// Reports the reduction of a band.
    pub fn store_band(&mut self, band: usize, gr_db: u32)
        requires
            band < BAND_COUNT,
        ensures
            final(self)@ == old(self)@.update(band as int, gr_db),
    {
        let mut bands = self.bands;
        bands[band] = gr_db;
        self.bands = bands;
    }

    /// The reductions of all bands.
    pub fn load(&self) -> (r: [u32; 10])
        ensures
            r@ == self@,
    {
        self.bands
    }
}

impl Default for CompanderMeter {
    fn default() -> (r: CompanderMeter)
        ensures
            r@ == no_reduction(),
    {
        CompanderMeter::new()
    }
}

/// A meter for where nobody looks at it.
pub fn empty_compander_meter() -> (r: CompanderMeter)
    ensures
        r@ == no_reduction(),
{
    CompanderMeter::new()
}

/// The smaller of two gains; one that is not a number does not count.
pub open spec fn smaller(a: u32, b: u32) -> u32 {
    if crate::float_bits::undefined(b) {
        a
    } else if crate::float_bits::undefined(a) || crate::float_bits::less(b, a) {
        b
    } else {
        a
    }
}

/// The smallest gain of a band in a block, which begins with none.
pub open spec fn smallest(gains: Seq<u32>) -> u32
    decreases gains.len(),
{
    if gains.len() == 0 {
        0
    } else {
        smaller(smallest(gains.drop_last()), gains.last())
    }
}

/// The smallest gain of each band in the current block, so that short reductions are seen.
#[derive(Debug, Clone, Copy, PartialEq, Eq)]
pub struct BlockGains {
    lows: [u32; 10],
}

impl View for BlockGains {
    type V = Seq<u32>;

    closed spec fn view(&self) -> Seq<u32> {
        self.lows@
    }
}

impl BlockGains {
    /// The gains at the beginning of a block.
    pub fn new() -> (r: BlockGains)
        ensures
            r@ == no_reduction(),
    {
        let lows: [u32; 10] = [0; 10];
        assert(lows@ =~= no_reduction());
        BlockGains { lows }
    }

    /// Takes the gain of a band in a frame.
    pub fn note(&mut self, band: usize, gain_db: u32)
        requires
            band < BAND_COUNT,
        ensures
            final(self)@ == old(self)@.update(
                band as int,
                smaller(old(self)@[band as int], gain_db),
            ),
    {
        let mut lows = self.lows;
        let low: u32 = lows[band];
        if !is_undefined(gain_db) && (is_undefined(low) || less_than(gain_db, low)) {
            lows[band] = gain_db;
        }
        self.lows = lows;
        assert(self@ =~= old(self)@.update(band as int, smaller(old(self)@[band as int], gain_db)));
    }

    /// Reports the block; a stage that is off reports no reduction.
    pub fn publish(&self, enabled: bool, meter: &mut CompanderMeter)
        ensures
            final(meter)@ == (if enabled {
                self@
            } else {
                no_reduction()
            }),
    {
        if enabled {
            meter.bands = self.lows;
        } else {
            *meter = CompanderMeter::new();
        }
    }
}

/// There is one gain for each band.
pub proof fn lemma_gains_len(gains: BlockGains)
    ensures
        gains@.len() == 10,
{
}

/// The meter never shows a gain above zero, and never one above a gain of the block.
pub proof fn law_the_meter_shows_the_deepest_reduction(gains: Seq<u32>, i: int)
    requires
        0 <= i < gains.len(),
    ensures
        crate::float_bits::at_most(smallest(gains), 0),
        !crate::float_bits::undefined(gains[i]) ==> crate::float_bits::at_most(
            smallest(gains),
            gains[i],
        ),
    decreases gains.len(),
{
    let head = gains.drop_last();
    if head.len() == 0 {
        assert(smallest(head) == 0);
    } else {
        law_the_meter_shows_the_deepest_reduction(head, 0);
        if i < head.len() {
            law_the_meter_shows_the_deepest_reduction(head, i);
        }
    }
}

/// When the gain of a band is computed anew.
#[derive(Debug, Clone, Copy, PartialEq, Eq, Structural)]
pub struct Control {
    pub left: usize,
}

impl Control {
    /// At least one and at most a whole interval of frames is left.
    pub open spec fn wf(self) -> bool {
        1 <= self.left <= CTRL_INTERVAL
    }

    /// The first frame computes.
    pub fn new() -> (r: Control)
        ensures
            r.wf(),
            r.left == 1,
    {
        Control { left: 1 }
    }

    /// Counts a frame; the result says whether it computes.
    pub fn tick(&mut self) -> (r: bool)
        requires
            old(self).wf(),
        ensures
            final(self).wf(),
            r == (old(self).left == 1),
            final(self).left == (if old(self).left == 1 {
                CTRL_INTERVAL as int
            } else {
                old(self).left - 1
            }),
    {
        self.left -= 1;
        if self.left == 0 {
            self.left = CTRL_INTERVAL;
            true
        } else {
            false
        }
    }
}

/// The settings are the same as numbers.
pub open spec fn same_settings(a: CompanderState, b: CompanderState) -> bool {
    &&& a.enabled == b.enabled
    &&& crate::float_bits::same(a.threshold_db, b.threshold_db)
    &&& crate::float_bits::same(a.ratio, b.ratio)
    &&& crate::float_bits::same(a.knee_db, b.knee_db)
    &&& crate::float_bits::same(a.attack_ms, b.attack_ms)
    &&& crate::float_bits::same(a.release_ms, b.release_ms)
    &&& crate::float_bits::same(a.makeup_db, b.makeup_db)
    &&& crate::float_bits::same(a.gate_db, b.gate_db)
    &&& crate::float_bits::same(a.expander_ratio, b.expander_ratio)
}

/// Whether settings have to be applied: they are the first ones, or differ from the last.
pub fn must_apply(last: Option<CompanderState>, state: CompanderState) -> (r: bool)
    ensures
        r == (match last {
            Some(l) => !same_settings(l, state),
            None => true,
        }),
{
    match last {
        Some(l) => !(l.enabled == state.enabled && same_value(l.threshold_db, state.threshold_db)
            && same_value(l.ratio, state.ratio) && same_value(l.knee_db, state.knee_db)
            && same_value(l.attack_ms, state.attack_ms) && same_value(
            l.release_ms,
            state.release_ms,
        ) && same_value(l.makeup_db, state.makeup_db) && same_value(l.gate_db, state.gate_db)
            && same_value(l.expander_ratio, state.expander_ratio)),
        None => true,
    }
}

} // verus!
