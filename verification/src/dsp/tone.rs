//! What filters, the bass boost, the saturation and the limiter do to a signal, and in which order the
//! effects run.
//!
//! The laws hold of any arithmetic that orders values as numbers are ordered.

use vstd::prelude::*;
use crate::dsp::arith::Calc;
use crate::dsp::bass::{BassChannel, BassSettings};
use crate::dsp::biquad::{Biquad, Coeffs};
use crate::dsp::chain::Stage;
use crate::dsp::saturation::{SaturationSettings, SideView};
use crate::dsp::stages::{BassStage, EqStage};
use crate::float_bits::ONE_BITS;
use crate::types::{BassBoostState, EqState, ParametricBand};
use crate::wide::Wide;

verus! {

/// A section that passes a signal through and remembers nothing.
pub open spec fn plain(s: Biquad) -> bool {
    &&& crate::float_bits::same(s.b0, ONE_BITS)
    &&& crate::dsp::numbers::zero(s.z1)
}

proof fn lemma_cascade(sections: Seq<Biquad>, n: nat, x: u32, g: spec_fn(Calc, u32, u32) -> u32)
    requires
        crate::dsp::numbers::ordinary(g),
        n <= sections.len(),
        forall|i: int| 0 <= i < n ==> plain(#[trigger] sections[i]),
        !crate::float_bits::undefined(x),
    ensures
        crate::float_bits::same(crate::dsp::biquad::cascade_out(sections, n, x, g), x),
    decreases n,
{
    reveal(crate::dsp::numbers::ordinary);
    if n > 0 {
        lemma_cascade(sections, (n - 1) as nat, x, g);
        let y = crate::dsp::biquad::cascade_out(sections, (n - 1) as nat, x, g);
        let s = sections[n - 1];
        assert(plain(s));
        let z = g(Calc::Mul, s.b0, y);
        assert(crate::float_bits::same(z, y));
        assert(crate::float_bits::same(g(Calc::Add, z, s.z1), z));
    }
}

/// Filters that change nothing leave the gain in front of them: a gain of one is not heard, silence
/// stays silence, and a larger gain makes what is above zero larger.
pub proof fn law_flat_filters_leave_the_gain(
    sections: Seq<Biquad>,
    active: nat,
    gain: u32,
    more: u32,
    x: u32,
    g: spec_fn(Calc, u32, u32) -> u32,
)
    requires
        crate::dsp::numbers::ordinary(g),
        active <= sections.len(),
        forall|i: int| 0 <= i < active ==> plain(#[trigger] sections[i]),
        crate::dsp::numbers::within(gain, 20),
        crate::dsp::numbers::within(more, 20),
        crate::float_bits::at_most(gain, more),
        crate::dsp::numbers::within(x, 20),
    ensures
        crate::float_bits::same(gain, ONE_BITS) ==> crate::float_bits::same(
            crate::dsp::equalizer::filtered(sections, gain, active, x, g),
            x,
        ),
        crate::dsp::numbers::zero(x) ==> crate::dsp::numbers::zero(
            crate::dsp::equalizer::filtered(sections, gain, active, x, g),
        ),
        crate::float_bits::less(0, x) ==> crate::float_bits::at_most(
            crate::dsp::equalizer::filtered(sections, gain, active, x, g),
            crate::dsp::equalizer::filtered(sections, more, active, x, g),
        ),
{
    reveal(crate::dsp::numbers::ordinary);
    let (a, b) = (g(Calc::Mul, x, gain), g(Calc::Mul, x, more));
    assert(crate::dsp::numbers::within(a, 40) && crate::dsp::numbers::within(b, 40));
    lemma_cascade(sections, active, a, g);
    lemma_cascade(sections, active, b, g);
    if crate::float_bits::less(0, x) {
        assert(crate::float_bits::at_most(a, b));
    }
}

/// Each slider of the equalizer has a filter of its own: there are as many as sliders, a filter
/// follows its slider alone, and sliders at the same gain have filters that differ in nothing but
/// their frequency, which rises from slider to slider.
pub proof fn law_each_slider_has_its_filter(
    rate: u32,
    a: Seq<u32>,
    b: Seq<u32>,
    i: int,
    j: int,
    h: spec_fn(Wide, u64, u64) -> u64,
)
    requires
        a.len() == 31,
        b.len() == 31,
        0 <= i < j < 31,
    ensures
        crate::dsp::design::graphic_designs(rate, a, h).len() == 31,
        a[i] == b[i] ==> crate::dsp::design::graphic_designs(rate, a, h)[i]
            == crate::dsp::design::graphic_designs(rate, b, h)[i],
        a[j] == b[j] ==> crate::dsp::design::graphic_designs(rate, a, h)[j]
            == crate::dsp::design::graphic_designs(rate, b, h)[j],
        crate::float_bits::less(
            crate::presets::center_bits()[i],
            crate::presets::center_bits()[j],
        ),
        a[i] == a[j] ==> exists|f: u32, e: u32, q: u32|
            crate::float_bits::less(f, e) && crate::dsp::design::graphic_designs(rate, a, h)[i]
                == #[trigger] crate::dsp::design::peaking(rate, f, a[i], q, h)
                && crate::dsp::design::graphic_designs(rate, a, h)[j]
                == #[trigger] crate::dsp::design::peaking(rate, e, a[j], q, h),
{
    let centers = crate::presets::center_bits();
    let q = crate::dsp::design::DEFAULT_Q;
    let d = crate::dsp::design::graphic_designs(rate, a, h);
    assert(d[i] == crate::dsp::design::peaking(rate, centers[i], a[i], q, h));
    assert(d[j] == crate::dsp::design::peaking(rate, centers[j], a[j], q, h));
}

/// An equalizer that takes other gains is tuned to them in every channel, band by band, and keeps what
/// its filters remember.
pub proof fn law_an_equalizer_takes_its_gains<
    F: Fn(Calc, u32, u32) -> u32,
    W: Fn(Wide, u64, u64) -> u64,
>(
    before: EqStage,
    params: EqState,
    f: F,
    w: W,
    after: EqStage,
    c: int,
    i: int,
    g: spec_fn(Calc, u32, u32) -> u32,
    h: spec_fn(Wide, u64, u64) -> u64,
)
    requires
        crate::dsp::arith::computes(f, g),
        crate::wide::computes(w, h),
        crate::dsp::stages::eq_set(before, params, f, w, after),
        0 <= c < before.stage@.bank.len(),
        0 <= i < 31,
        before.stage@.bank[c].len() == 31,
    ensures
        after.stage@.enabled == params.enabled,
        !crate::float_bits::same(before.bands@[i], params.bands@[i]) ==> ({
            let section = after.stage@.bank[c][i];
            let d = crate::dsp::design::graphic_designs(before.rate, params.bands@, h)[i];
            &&& (Coeffs {
                b0: section.b0,
                b1: section.b1,
                b2: section.b2,
                a1: section.a1,
                a2: section.a2,
            }) == d
            &&& section.z1 == before.stage@.bank[c][i].z1
            &&& section.z2 == before.stage@.bank[c][i].z2
            &&& after.bands == params.bands
        }),
{
}

/// A correction uses the bands of its profile in their order, each with its own frequency, gain and
/// quality: low shelves and high shelves under the names that profiles give them, and peaks. What has
/// another name changes nothing.
pub proof fn law_a_profile_is_read_band_by_band(
    rate: u32,
    bands: Seq<ParametricBand>,
    k: int,
    h: spec_fn(Wide, u64, u64) -> u64,
)
    requires
        0 <= k < bands.len() <= 24,
    ensures
        crate::dsp::stages::profile_filters(rate, bands, h).len() == bands.len(),
        ({
            let filter = crate::dsp::stages::profile_filters(rate, bands, h)[k];
            let (kind, f, gain, q) = (bands[k].kind@, bands[k].freq, bands[k].gain, bands[k].q);
            &&& kind == "peaking"@ ==> filter == crate::dsp::design::peaking(rate, f, gain, q, h)
            &&& kind == "lowShelf"@ || kind == "LSC"@ ==> filter == crate::dsp::design::low_shelf(
                rate,
                f,
                gain,
                q,
                h,
            )
            &&& kind == "highShelf"@ || kind == "HSC"@ ==> filter == crate::dsp::design::high_shelf(
                rate,
                f,
                gain,
                q,
                h,
            )
            &&& kind == ""@ ==> filter == (Coeffs { b0: ONE_BITS, b1: 0, b2: 0, a1: 0, a2: 0 })
        }),
{
    reveal_strlit("peaking");
    reveal_strlit("lowShelf");
    reveal_strlit("low_shelf");
    reveal_strlit("highShelf");
    reveal_strlit("high_shelf");
    reveal_strlit("LSC");
    reveal_strlit("HSC");
    reveal_strlit("");
    let kind = bands[k].kind@;
    assert("LSC"@[0] == 'L' && "HSC"@[0] == 'H');
    assert("lowShelf"@[0] == 'l' && "highShelf"@[0] == 'h' && "peaking"@[0] == 'p');
    assert("low_shelf"@[0] == 'l' && "high_shelf"@[0] == 'h');
    assert("low_shelf"@.len() == 9 && "high_shelf"@.len() == 10);
    assert(""@.len() == 0);
}

/// More of the shelf is heard the larger its share is: none of it leaves the sample as it is, and a
/// larger share takes a sample that the shelf raises further up.
pub proof fn law_a_larger_share_boosts_more(
    x: u32,
    shelved: u32,
    share: u32,
    more: u32,
    g: spec_fn(Calc, u32, u32) -> u32,
)
    requires
        crate::dsp::numbers::ordinary(g),
        crate::dsp::numbers::within(x, 20),
        crate::dsp::numbers::within(shelved, 20),
        crate::float_bits::at_most(0, share),
        crate::float_bits::at_most(share, more),
        crate::float_bits::less(more, ONE_BITS),
        crate::float_bits::less(x, shelved),
    ensures
        crate::dsp::numbers::zero(share) ==> crate::float_bits::same(
            crate::dsp::bass::blended(x, shelved, share, g),
            x,
        ),
        crate::float_bits::at_most(x, crate::dsp::bass::blended(x, shelved, share, g)),
        crate::float_bits::at_most(
            crate::dsp::bass::blended(x, shelved, share, g),
            crate::dsp::bass::blended(x, shelved, more, g),
        ),
        crate::dsp::bass::blended(x, shelved, ONE_BITS, g) == shelved,
{
    reveal(crate::dsp::numbers::ordinary);
    let d = g(Calc::Sub, shelved, x);
    assert(crate::dsp::numbers::within(d, 21));
    assert(crate::dsp::numbers::positive(d));
    let (a, b) = (g(Calc::Mul, share, d), g(Calc::Mul, more, d));
    assert(crate::float_bits::at_most(a, b));
    let none = g(Calc::Mul, 0, d);
    assert(crate::float_bits::at_most(none, a));
    assert(crate::float_bits::at_most(g(Calc::Add, x, none), g(Calc::Add, x, a)));
    assert(crate::float_bits::at_most(g(Calc::Add, x, a), g(Calc::Add, x, b)));
}

/// Harmonics are added with the sign of the bass: where the bass is above zero they raise a sample.
pub proof fn law_harmonics_have_the_sign_of_the_bass(
    s: BassSettings,
    c: BassChannel,
    x: u32,
    g: spec_fn(Calc, u32, u32) -> u32,
)
    requires
        crate::dsp::numbers::ordinary(g),
        crate::dsp::numbers::rises(Calc::Tanh, 0, 0, g),
        s.harmonics,
        crate::dsp::numbers::within(
            crate::dsp::bass::bass_out(BassSettings { harmonics: false, ..s }, c, x, g),
            20,
        ),
    ensures
        crate::float_bits::at_most(0, crate::dsp::bass::bass_next(s, c, x, g).low)
            ==> crate::float_bits::at_most(
            crate::dsp::bass::bass_out(BassSettings { harmonics: false, ..s }, c, x, g),
            crate::dsp::bass::bass_out(s, c, x, g),
        ),
{
    reveal(crate::dsp::numbers::ordinary);
    let two = crate::float_bits::TWO_BITS;
    let half = crate::dsp::arith::HALF_BITS;
    let share = crate::dsp::bass::HARMONICS;
    let low = crate::dsp::bass::bass_next(s, c, x, g).low;
    let flat = crate::dsp::bass::bass_out(BassSettings { harmonics: false, ..s }, c, x, g);
    assert(crate::dsp::numbers::positive(two) && crate::dsp::numbers::positive(half));
    assert(crate::dsp::numbers::positive(share));
    if crate::float_bits::at_most(0, low) {
        let up = g(Calc::Mul, low, two);
        assert(crate::float_bits::at_most(g(Calc::Mul, 0, two), up));
        assert(crate::float_bits::at_most(g(Calc::Tanh, 0, 0), g(Calc::Tanh, up, 0)));
        let bent = g(Calc::Tanh, up, 0);
        let part = g(Calc::Mul, share, bent);
        assert(crate::float_bits::at_most(g(Calc::Mul, share, 0), part));
        let added = g(Calc::Mul, part, half);
        assert(crate::float_bits::at_most(g(Calc::Mul, 0, half), added));
        assert(crate::float_bits::at_most(g(Calc::Add, flat, 0), g(Calc::Add, flat, added)));
    }
}

/// A bass boost takes its settings: it is on, adds harmonics and adapts where it is asked to, and a
/// boost that has moved tunes the shelf of every channel to it.
pub proof fn law_a_bass_boost_takes_its_settings<
    F: Fn(Calc, u32, u32) -> u32,
    W: Fn(Wide, u64, u64) -> u64,
>(
    before: BassStage,
    params: BassBoostState,
    f: F,
    w: W,
    after: BassStage,
    c: int,
    g: spec_fn(Calc, u32, u32) -> u32,
    h: spec_fn(Wide, u64, u64) -> u64,
)
    requires
        crate::dsp::arith::computes(f, g),
        crate::wide::computes(w, h),
        crate::dsp::stages::bass_set(before, params, f, w, after),
        0 <= c < before.stage.channels().len(),
    ensures
        after.stage.settings().enabled == params.enabled,
        after.stage.settings().harmonics == params.harmonics,
        after.stage.settings().adaptive == params.adaptive,
        crate::dsp::stages::moved(before.amount, params.amount, g) ==> {
            let shelf = after.stage.channels()[c].shelf;
            let d = crate::dsp::design::low_shelf(
                before.rate,
                0x42dc_0000,
                params.amount,
                0x3f34_fdf4,
                h,
            );
            &&& (Coeffs { b0: shelf.b0, b1: shelf.b1, b2: shelf.b2, a1: shelf.a1, a2: shelf.a2 })
                == d
            &&& shelf.z1 == before.stage.channels()[c].shelf.z1
            &&& after.stage.channels()[c].level == before.stage.channels()[c].level
        },
{
}

/// The gain of a limiter that is below one comes back towards one as long as no peak keeps it down.
pub proof fn law_a_limiter_lets_go(
    gain: u32,
    release: u32,
    target: u32,
    g: spec_fn(Calc, u32, u32) -> u32,
)
    requires
        crate::dsp::numbers::ordinary(g),
        crate::float_bits::at_most(0, gain),
        crate::float_bits::at_most(gain, ONE_BITS),
        crate::dsp::numbers::within(release, 0),
        crate::float_bits::less(0, release),
        crate::float_bits::same(target, ONE_BITS),
    ensures
        crate::float_bits::at_most(gain, crate::dsp::limiter::frame_gain(gain, release, target, g)),
        crate::float_bits::at_most(
            crate::dsp::limiter::frame_gain(gain, release, target, g),
            ONE_BITS,
        ),
{
    reveal(crate::dsp::numbers::ordinary);
    assert(crate::dsp::numbers::within(ONE_BITS, 0) && crate::dsp::numbers::within(gain, 0));
    let open = g(Calc::Sub, ONE_BITS, gain);
    assert(crate::dsp::numbers::within(open, 1));
    assert(crate::float_bits::at_most(g(Calc::Sub, ONE_BITS, ONE_BITS), open));
    let step = g(Calc::Mul, open, release);
    assert(crate::float_bits::at_most(g(Calc::Mul, 0, release), step));
    assert(crate::float_bits::at_most(g(Calc::Add, gain, 0), g(Calc::Add, gain, step)));
}

/// A peak above the ceiling is brought down the more the further it is above it, and a higher ceiling
/// lets more through; a peak at the ceiling or below is left alone.
pub proof fn law_the_target_follows_peak_and_ceiling(
    peak: u32,
    louder: u32,
    ceiling: u32,
    higher: u32,
    g: spec_fn(Calc, u32, u32) -> u32,
)
    requires
        crate::dsp::numbers::ordinary(g),
        crate::dsp::numbers::positive(peak),
        crate::dsp::numbers::positive(louder),
        crate::dsp::numbers::positive(ceiling),
        crate::dsp::numbers::positive(higher),
        crate::float_bits::at_most(peak, louder),
        crate::float_bits::at_most(ceiling, higher),
    ensures
        crate::float_bits::at_most(
            crate::dsp::limiter::target_gain(louder, ceiling, g),
            crate::dsp::limiter::target_gain(peak, ceiling, g),
        ),
        crate::float_bits::at_most(
            crate::dsp::limiter::target_gain(peak, ceiling, g),
            crate::dsp::limiter::target_gain(peak, higher, g),
        ),
        crate::float_bits::at_most(crate::dsp::limiter::target_gain(peak, ceiling, g), ONE_BITS),
        crate::float_bits::at_most(peak, ceiling) ==> crate::dsp::limiter::target_gain(
            peak,
            ceiling,
            g,
        ) == ONE_BITS,
{
    reveal(crate::dsp::numbers::ordinary);
    assert(crate::float_bits::at_most(g(Calc::Div, ceiling, louder), g(Calc::Div, ceiling, peak)));
    assert(crate::float_bits::at_most(g(Calc::Div, ceiling, peak), g(Calc::Div, higher, peak)));
    if crate::float_bits::less(ceiling, peak) {
        assert(crate::float_bits::at_most(g(Calc::Div, ceiling, peak), g(Calc::Div, peak, peak)));
    }
    if crate::float_bits::less(ceiling, louder) {
        assert(crate::float_bits::at_most(
            g(Calc::Div, ceiling, louder),
            g(Calc::Div, louder, louder),
        ));
    }
}

/// The drive of the saturation rises with its setting, from one where it is at zero, and its share and
/// whether it is on are as they are set.
pub proof fn law_the_drive_follows_its_setting(
    enabled: bool,
    drive: u32,
    more: u32,
    mix: u32,
    g: spec_fn(Calc, u32, u32) -> u32,
)
    requires
        crate::dsp::numbers::ordinary(g),
        crate::float_bits::at_most(drive, more),
    ensures
        ({
            let a = crate::dsp::stages::saturation_set(enabled, drive, mix, g);
            let b = crate::dsp::stages::saturation_set(enabled, more, mix, g);
            &&& crate::float_bits::at_most(a.drive, b.drive)
            &&& crate::float_bits::at_most(drive, 0) ==> crate::float_bits::same(a.drive, ONE_BITS)
            &&& crate::float_bits::at_most(ONE_BITS, drive) ==> crate::float_bits::same(
                a.drive,
                g(Calc::Add, ONE_BITS, 0x4110_0000),
            )
            &&& a.enabled == enabled
            &&& a.mix == mix
        }),
{
    reveal(crate::dsp::numbers::ordinary);
    let nine = crate::dsp::tuning::NINE_BITS;
    assert(crate::dsp::numbers::positive(nine));
    let (u, v) = (crate::dsp::arith::unit(drive), crate::dsp::arith::unit(more));
    assert(crate::float_bits::at_most(u, v));
    let (a, b) = (g(Calc::Mul, u, nine), g(Calc::Mul, v, nine));
    assert(crate::float_bits::at_most(a, b));
    assert(crate::float_bits::at_most(g(Calc::Add, ONE_BITS, a), g(Calc::Add, ONE_BITS, b)));
    if crate::float_bits::at_most(drive, 0) {
        assert(crate::dsp::numbers::zero(u));
        assert(crate::dsp::numbers::zero(a));
    }
    if crate::float_bits::at_most(ONE_BITS, drive) {
        assert(u == ONE_BITS);
        assert(crate::float_bits::same(a, nine));
        assert(crate::float_bits::at_most(a, nine) && crate::float_bits::at_most(nine, a));
        let (x, y) = (g(Calc::Add, ONE_BITS, a), g(Calc::Add, ONE_BITS, nine));
        assert(crate::float_bits::at_most(x, y) && crate::float_bits::at_most(y, x));
    }
}

/// The share of the bent signal in what is heard: without any, the late dry signal is heard, and with
/// all of it nothing of the dry signal.
pub proof fn law_the_share_of_the_saturation_is_heard(
    s: SaturationSettings,
    c: SideView,
    d: SideView,
    x: u32,
    g: spec_fn(Calc, u32, u32) -> u32,
)
    requires
        crate::dsp::numbers::ordinary(g),
        1 <= c.dry_delay <= c.dry.len(),
        c.dry_delay == d.dry_delay,
        c.dry.len() == d.dry.len(),
        c.over == d.over,
        c.dc == d.dc,
        crate::dsp::numbers::within(c.dry[c.dry_delay - 1], 1),
        crate::dsp::numbers::within(d.dry[d.dry_delay - 1], 1),
        crate::dsp::numbers::within(s.makeup, 20),
        crate::dsp::numbers::within(
            crate::dsp::saturation::dc_free(
                c.dc,
                crate::dsp::saturation::bent_low(s, c, x, g),
                g,
            ),
            20,
        ),
    ensures
        crate::dsp::numbers::zero(s.mix) ==> crate::float_bits::same(
            crate::dsp::saturation::side_out(s, c, x, g),
            c.dry[c.dry_delay - 1],
        ),
        crate::float_bits::same(s.mix, ONE_BITS) ==> crate::float_bits::same(
            crate::dsp::saturation::side_out(s, c, x, g),
            crate::dsp::saturation::side_out(s, d, x, g),
        ),
{
    reveal(crate::dsp::numbers::ordinary);
    let wet = crate::dsp::saturation::dc_free(
        c.dc,
        crate::dsp::saturation::bent_low(s, c, x, g),
        g,
    );
    let other = crate::dsp::saturation::dc_free(
        d.dc,
        crate::dsp::saturation::bent_low(s, d, x, g),
        g,
    );
    assert(wet == other);
    let rest = g(Calc::Sub, ONE_BITS, s.mix);
    let (p, q) = (c.dry[c.dry_delay - 1], d.dry[d.dry_delay - 1]);
    let (a, b) = (g(Calc::Mul, p, rest), g(Calc::Mul, q, rest));
    let e = g(Calc::Mul, g(Calc::Mul, wet, s.mix), s.makeup);
    if crate::dsp::numbers::zero(s.mix) {
        assert(crate::float_bits::same(rest, ONE_BITS));
        assert(crate::dsp::numbers::zero(g(Calc::Mul, wet, s.mix)));
        assert(crate::dsp::numbers::zero(e));
        assert(crate::float_bits::same(g(Calc::Add, a, e), a));
    }
    if crate::float_bits::same(s.mix, ONE_BITS) {
        assert(crate::dsp::numbers::zero(rest));
        assert(crate::dsp::numbers::zero(a) && crate::dsp::numbers::zero(b));
        let m = g(Calc::Mul, wet, s.mix);
        assert(crate::float_bits::same(m, wet));
        assert(crate::dsp::numbers::within(m, 20));
        assert(crate::dsp::numbers::within(e, 40));
        assert(crate::float_bits::same(g(Calc::Add, a, e), e));
        assert(crate::float_bits::same(g(Calc::Add, b, e), e));
    }
}

/// The place of an effect in the chain.
pub open spec fn place_in_chain(stage: Stage) -> int {
    match stage {
        Stage::HeadphoneCorrection => 0,
        Stage::GraphicEq => 1,
        Stage::BassBoost => 2,
        Stage::Spatializer => 3,
        Stage::Surround3D => 4,
        Stage::RoomEffects => 5,
        Stage::Convolver => 6,
        Stage::Compander => 7,
        Stage::Gain => 8,
        Stage::Limiter => 9,
    }
}

/// The correction of the headphones runs first, then the equalizer, the bass boost, the spatializer,
/// the ring, the room, the convolver and the compander, and behind them the gain and the limiter.
pub proof fn law_every_effect_has_its_place(stage: Stage)
    ensures
        crate::dsp::chain::stage_order().len() == 10,
        crate::dsp::chain::stage_order()[place_in_chain(stage)] == stage,
{
}

} // verus!
