//! The design of filters: the coefficients of a section from its frequency, gain and quality, in
//! double precision.

use vstd::prelude::*;
use crate::dsp::bands::{active_bands, filter_kind, FilterKind, MAX_BANDS};
use crate::dsp::biquad::{Biquad, Coeffs};
use crate::dsp::oversample::NUM_TAPS;
use crate::float_bits::{negate64, ONE_BITS};
use crate::presets::iso_bits;
use crate::types::ParametricBand;
use crate::wide::{
    apply, bits_magnitude64, cut64, larger_of64, narrow, Wide, MINUS_TWO_WIDE, ONE_WIDE,
    TURN_WIDE, TWO_WIDE,
};

verus! {

/// The bits of the least sample rate for which a filter can be designed: its frequencies are kept
/// from 1 Hz up to 0.495 of the rate.
pub const LEAST_RATE: u32 = 0x4001_4afe;

/// The bits of 0.495: the largest frequency as a share of the sample rate.
pub const TOP_SHARE: u64 = 0x3fdf_ae14_7ae1_47ae;

/// The bits of 1e-4: the least quality.
pub const LEAST_QUALITY: u64 = 0x3f1a_36e2_eb1c_432d;

/// The bits of 40: that many dB are a factor of ten in the amplitude of a section.
pub const DB_PER_DECADE: u64 = 0x4044_0000_0000_0000;

/// What a frequency and a quality mean at a sample rate.
pub struct Angle {
    pub cos: u64,
    /// Half the width of the filter.
    pub alpha: u64,
}

/// The angle of a frequency, which is kept inside the usable range.
pub open spec fn angle_of(
    rate: u32,
    freq: u32,
    q: u32,
    g: spec_fn(Wide, u64, u64) -> u64,
) -> Angle {
    let fs = g(Wide::Widen, rate as u64, 0);
    let f0 = crate::wide::between64(
        g(Wide::Widen, freq as u64, 0),
        ONE_WIDE,
        g(Wide::Mul, fs, TOP_SHARE),
    );
    let w = g(Wide::Div, g(Wide::Mul, TURN_WIDE, f0), fs);
    let quality = crate::wide::larger64(g(Wide::Widen, q as u64, 0), LEAST_QUALITY);
    Angle {
        cos: g(Wide::Cos, w, 0),
        alpha: g(Wide::Div, g(Wide::Sin, w, 0), g(Wide::Mul, TWO_WIDE, quality)),
    }
}

fn angle<F: Fn(Wide, u64, u64) -> u64>(rate: u32, freq: u32, q: u32, f: &F) -> (r: Angle)
    requires
        crate::wide::callable(*f),
    ensures
        forall|g: spec_fn(Wide, u64, u64) -> u64| #[trigger]
            crate::wide::computes(*f, g) ==> r == angle_of(rate, freq, q, g),
{
    let fs: u64 = apply(f, Wide::Widen, rate as u64, 0);
    let top: u64 = apply(f, Wide::Mul, fs, TOP_SHARE);
    let wanted: u64 = apply(f, Wide::Widen, freq as u64, 0);
    let turns: u64 = apply(f, Wide::Mul, TURN_WIDE, cut64(wanted, ONE_WIDE, top));
    let w: u64 = apply(f, Wide::Div, turns, fs);
    let quality: u64 = larger_of64(apply(f, Wide::Widen, q as u64, 0), LEAST_QUALITY);
    let sin: u64 = apply(f, Wide::Sin, w, 0);
    let width: u64 = apply(f, Wide::Mul, TWO_WIDE, quality);
    Angle { cos: apply(f, Wide::Cos, w, 0), alpha: apply(f, Wide::Div, sin, width) }
}

/// The amplitude of a gain in dB: `10^(gain / 40)`.
pub open spec fn amplitude_of(gain: u32, g: spec_fn(Wide, u64, u64) -> u64) -> u64 {
    g(Wide::TenTo, g(Wide::Div, g(Wide::Widen, gain as u64, 0), DB_PER_DECADE), 0)
}

fn amplitude<F: Fn(Wide, u64, u64) -> u64>(gain: u32, f: &F) -> (r: u64)
    requires
        crate::wide::callable(*f),
    ensures
        forall|g: spec_fn(Wide, u64, u64) -> u64| #[trigger]
            crate::wide::computes(*f, g) ==> r == amplitude_of(gain, g),
{
    let wide: u64 = apply(f, Wide::Widen, gain as u64, 0);
    let decades: u64 = apply(f, Wide::Div, wide, DB_PER_DECADE);
    apply(f, Wide::TenTo, decades, 0)
}

/// The coefficients of a section before they are divided by the first of its denominator.
pub struct RawCoeffs {
    pub b0: u64,
    pub b1: u64,
    pub b2: u64,
    pub a0: u64,
    pub a1: u64,
    pub a2: u64,
}

/// The coefficients divided by the first one of the denominator, in single precision.
pub open spec fn normalized(c: RawCoeffs, g: spec_fn(Wide, u64, u64) -> u64) -> Coeffs {
    Coeffs {
        b0: crate::wide::narrowed(g(Wide::Div, c.b0, c.a0), g),
        b1: crate::wide::narrowed(g(Wide::Div, c.b1, c.a0), g),
        b2: crate::wide::narrowed(g(Wide::Div, c.b2, c.a0), g),
        a1: crate::wide::narrowed(g(Wide::Div, c.a1, c.a0), g),
        a2: crate::wide::narrowed(g(Wide::Div, c.a2, c.a0), g),
    }
}

fn normalize<F: Fn(Wide, u64, u64) -> u64>(c: RawCoeffs, f: &F) -> (r: Coeffs)
    requires
        crate::wide::callable(*f),
    ensures
        forall|g: spec_fn(Wide, u64, u64) -> u64| #[trigger]
            crate::wide::computes(*f, g) ==> r == normalized(c, g),
{
    let b0: u64 = apply(f, Wide::Div, c.b0, c.a0);
    let b1: u64 = apply(f, Wide::Div, c.b1, c.a0);
    let b2: u64 = apply(f, Wide::Div, c.b2, c.a0);
    let a1: u64 = apply(f, Wide::Div, c.a1, c.a0);
    let a2: u64 = apply(f, Wide::Div, c.a2, c.a0);
    Coeffs {
        b0: narrow(f, b0),
        b1: narrow(f, b1),
        b2: narrow(f, b2),
        a1: narrow(f, a1),
        a2: narrow(f, a2),
    }
}

/// A filter that raises or lowers the surroundings of a frequency.
pub open spec fn peaking(
    rate: u32,
    freq: u32,
    gain: u32,
    q: u32,
    g: spec_fn(Wide, u64, u64) -> u64,
) -> Coeffs {
    let w = angle_of(rate, freq, q, g);
    let a = amplitude_of(gain, g);
    let up = g(Wide::Mul, w.alpha, a);
    let down = g(Wide::Div, w.alpha, a);
    let turn = g(Wide::Mul, MINUS_TWO_WIDE, w.cos);
    normalized(
        RawCoeffs {
            b0: g(Wide::Add, ONE_WIDE, up),
            b1: turn,
            b2: g(Wide::Sub, ONE_WIDE, up),
            a0: g(Wide::Add, ONE_WIDE, down),
            a1: turn,
            a2: g(Wide::Sub, ONE_WIDE, down),
        },
        g,
    )
}

/// What the two kinds of shelves are made of, for an amplitude `a`: `(a + 1) - (a - 1) * cos`,
/// `(a + 1) + (a - 1) * cos`, `(a - 1) - (a + 1) * cos`, `(a - 1) + (a + 1) * cos`, and
/// `2 * sqrt(a) * alpha`.
pub struct ShelfTerms {
    pub sum_less: u64,
    pub sum_more: u64,
    pub diff_less: u64,
    pub diff_more: u64,
    pub slope: u64,
}

/// The terms of a shelf.
pub open spec fn shelf_terms(w: Angle, a: u64, g: spec_fn(Wide, u64, u64) -> u64) -> ShelfTerms {
    let plus = g(Wide::Add, a, ONE_WIDE);
    let minus = g(Wide::Sub, a, ONE_WIDE);
    ShelfTerms {
        sum_less: g(Wide::Sub, plus, g(Wide::Mul, minus, w.cos)),
        sum_more: g(Wide::Add, plus, g(Wide::Mul, minus, w.cos)),
        diff_less: g(Wide::Sub, minus, g(Wide::Mul, plus, w.cos)),
        diff_more: g(Wide::Add, minus, g(Wide::Mul, plus, w.cos)),
        slope: g(Wide::Mul, g(Wide::Mul, TWO_WIDE, g(Wide::Sqrt, a, 0)), w.alpha),
    }
}

fn terms_of_shelf<F: Fn(Wide, u64, u64) -> u64>(w: &Angle, a: u64, f: &F) -> (r: ShelfTerms)
    requires
        crate::wide::callable(*f),
    ensures
        forall|g: spec_fn(Wide, u64, u64) -> u64| #[trigger]
            crate::wide::computes(*f, g) ==> r == shelf_terms(*w, a, g),
{
    let plus: u64 = apply(f, Wide::Add, a, ONE_WIDE);
    let minus: u64 = apply(f, Wide::Sub, a, ONE_WIDE);
    let minus_cos: u64 = apply(f, Wide::Mul, minus, w.cos);
    let plus_cos: u64 = apply(f, Wide::Mul, plus, w.cos);
    let root: u64 = apply(f, Wide::Sqrt, a, 0);
    let two_roots: u64 = apply(f, Wide::Mul, TWO_WIDE, root);
    ShelfTerms {
        sum_less: apply(f, Wide::Sub, plus, minus_cos),
        sum_more: apply(f, Wide::Add, plus, minus_cos),
        diff_less: apply(f, Wide::Sub, minus, plus_cos),
        diff_more: apply(f, Wide::Add, minus, plus_cos),
        slope: apply(f, Wide::Mul, two_roots, w.alpha),
    }
}

/// A filter that raises or lowers what is below a frequency.
pub open spec fn low_shelf(
    rate: u32,
    freq: u32,
    gain: u32,
    q: u32,
    g: spec_fn(Wide, u64, u64) -> u64,
) -> Coeffs {
    let a = amplitude_of(gain, g);
    let t = shelf_terms(angle_of(rate, freq, q, g), a, g);
    normalized(
        RawCoeffs {
            b0: g(Wide::Mul, a, g(Wide::Add, t.sum_less, t.slope)),
            b1: g(Wide::Mul, g(Wide::Mul, TWO_WIDE, a), t.diff_less),
            b2: g(Wide::Mul, a, g(Wide::Sub, t.sum_less, t.slope)),
            a0: g(Wide::Add, t.sum_more, t.slope),
            a1: g(Wide::Mul, MINUS_TWO_WIDE, t.diff_more),
            a2: g(Wide::Sub, t.sum_more, t.slope),
        },
        g,
    )
}

/// A filter that raises or lowers what is above a frequency.
pub open spec fn high_shelf(
    rate: u32,
    freq: u32,
    gain: u32,
    q: u32,
    g: spec_fn(Wide, u64, u64) -> u64,
) -> Coeffs {
    let a = amplitude_of(gain, g);
    let t = shelf_terms(angle_of(rate, freq, q, g), a, g);
    normalized(
        RawCoeffs {
            b0: g(Wide::Mul, a, g(Wide::Add, t.sum_more, t.slope)),
            b1: g(Wide::Mul, g(Wide::Mul, MINUS_TWO_WIDE, a), t.diff_more),
            b2: g(Wide::Mul, a, g(Wide::Sub, t.sum_more, t.slope)),
            a0: g(Wide::Add, t.sum_less, t.slope),
            a1: g(Wide::Mul, TWO_WIDE, t.diff_less),
            a2: g(Wide::Sub, t.sum_less, t.slope),
        },
        g,
    )
}

/// A filter that passes what is below a frequency.
pub open spec fn lowpass(
    rate: u32,
    freq: u32,
    q: u32,
    g: spec_fn(Wide, u64, u64) -> u64,
) -> Coeffs {
    let w = angle_of(rate, freq, q, g);
    let b1 = g(Wide::Sub, ONE_WIDE, w.cos);
    let b0 = g(Wide::Div, b1, TWO_WIDE);
    normalized(
        RawCoeffs {
            b0,
            b1,
            b2: b0,
            a0: g(Wide::Add, ONE_WIDE, w.alpha),
            a1: g(Wide::Mul, MINUS_TWO_WIDE, w.cos),
            a2: g(Wide::Sub, ONE_WIDE, w.alpha),
        },
        g,
    )
}

/// A filter that passes what is above a frequency.
pub open spec fn highpass(
    rate: u32,
    freq: u32,
    q: u32,
    g: spec_fn(Wide, u64, u64) -> u64,
) -> Coeffs {
    let w = angle_of(rate, freq, q, g);
    let sum = g(Wide::Add, ONE_WIDE, w.cos);
    let b0 = g(Wide::Div, sum, TWO_WIDE);
    normalized(
        RawCoeffs {
            b0,
            b1: crate::float_bits::negated64(sum),
            b2: b0,
            a0: g(Wide::Add, ONE_WIDE, w.alpha),
            a1: g(Wide::Mul, MINUS_TWO_WIDE, w.cos),
            a2: g(Wide::Sub, ONE_WIDE, w.alpha),
        },
        g,
    )
}

/// The filter that a kind stands for.
pub open spec fn filter_of(
    kind: FilterKind,
    rate: u32,
    freq: u32,
    gain: u32,
    q: u32,
    g: spec_fn(Wide, u64, u64) -> u64,
) -> Coeffs {
    match kind {
        FilterKind::Peaking => peaking(rate, freq, gain, q, g),
        FilterKind::LowShelf => low_shelf(rate, freq, gain, q, g),
        FilterKind::HighShelf => high_shelf(rate, freq, gain, q, g),
        FilterKind::Identity => crate::dsp::biquad::pass_through(),
    }
}

impl Biquad {
    /// Makes this section a peaking filter; it keeps its memory.
    pub fn set_peaking<F: Fn(Wide, u64, u64) -> u64>(
        &mut self,
        sample_rate: u32,
        f0: u32,
        gain_db: u32,
        q: u32,
        f: &F,
    )
        requires
            crate::float_bits::at_most(LEAST_RATE, sample_rate),
            crate::wide::callable(*f),
        ensures
            forall|g: spec_fn(Wide, u64, u64) -> u64| #[trigger]
                crate::wide::computes(*f, g) ==> *final(self) == crate::dsp::biquad::tuned(
                    *old(self),
                    peaking(sample_rate, f0, gain_db, q, g),
                ),
    {
        let w: Angle = angle(sample_rate, f0, q, f);
        let a: u64 = amplitude(gain_db, f);
        let up: u64 = apply(f, Wide::Mul, w.alpha, a);
        let down: u64 = apply(f, Wide::Div, w.alpha, a);
        let turn: u64 = apply(f, Wide::Mul, MINUS_TWO_WIDE, w.cos);
        self.assign(
            normalize(
                RawCoeffs {
                    b0: apply(f, Wide::Add, ONE_WIDE, up),
                    b1: turn,
                    b2: apply(f, Wide::Sub, ONE_WIDE, up),
                    a0: apply(f, Wide::Add, ONE_WIDE, down),
                    a1: turn,
                    a2: apply(f, Wide::Sub, ONE_WIDE, down),
                },
                f,
            ),
        );
    }

    /// Makes this section a low shelf; it keeps its memory.
    pub fn set_low_shelf<F: Fn(Wide, u64, u64) -> u64>(
        &mut self,
        sample_rate: u32,
        f0: u32,
        gain_db: u32,
        q: u32,
        f: &F,
    )
        requires
            crate::float_bits::at_most(LEAST_RATE, sample_rate),
            crate::wide::callable(*f),
        ensures
            forall|g: spec_fn(Wide, u64, u64) -> u64| #[trigger]
                crate::wide::computes(*f, g) ==> *final(self) == crate::dsp::biquad::tuned(
                    *old(self),
                    low_shelf(sample_rate, f0, gain_db, q, g),
                ),
    {
        let w: Angle = angle(sample_rate, f0, q, f);
        let a: u64 = amplitude(gain_db, f);
        let t: ShelfTerms = terms_of_shelf(&w, a, f);
        let top: u64 = apply(f, Wide::Add, t.sum_less, t.slope);
        let bottom: u64 = apply(f, Wide::Sub, t.sum_less, t.slope);
        let twice: u64 = apply(f, Wide::Mul, TWO_WIDE, a);
        self.assign(
            normalize(
                RawCoeffs {
                    b0: apply(f, Wide::Mul, a, top),
                    b1: apply(f, Wide::Mul, twice, t.diff_less),
                    b2: apply(f, Wide::Mul, a, bottom),
                    a0: apply(f, Wide::Add, t.sum_more, t.slope),
                    a1: apply(f, Wide::Mul, MINUS_TWO_WIDE, t.diff_more),
                    a2: apply(f, Wide::Sub, t.sum_more, t.slope),
                },
                f,
            ),
        );
    }

    /// Makes this section a high shelf; it keeps its memory.
    pub fn set_high_shelf<F: Fn(Wide, u64, u64) -> u64>(
        &mut self,
        sample_rate: u32,
        f0: u32,
        gain_db: u32,
        q: u32,
        f: &F,
    )
        requires
            crate::float_bits::at_most(LEAST_RATE, sample_rate),
            crate::wide::callable(*f),
        ensures
            forall|g: spec_fn(Wide, u64, u64) -> u64| #[trigger]
                crate::wide::computes(*f, g) ==> *final(self) == crate::dsp::biquad::tuned(
                    *old(self),
                    high_shelf(sample_rate, f0, gain_db, q, g),
                ),
    {
        let w: Angle = angle(sample_rate, f0, q, f);
        let a: u64 = amplitude(gain_db, f);
        let t: ShelfTerms = terms_of_shelf(&w, a, f);
        let top: u64 = apply(f, Wide::Add, t.sum_more, t.slope);
        let bottom: u64 = apply(f, Wide::Sub, t.sum_more, t.slope);
        let twice: u64 = apply(f, Wide::Mul, MINUS_TWO_WIDE, a);
        self.assign(
            normalize(
                RawCoeffs {
                    b0: apply(f, Wide::Mul, a, top),
                    b1: apply(f, Wide::Mul, twice, t.diff_more),
                    b2: apply(f, Wide::Mul, a, bottom),
                    a0: apply(f, Wide::Add, t.sum_less, t.slope),
                    a1: apply(f, Wide::Mul, TWO_WIDE, t.diff_less),
                    a2: apply(f, Wide::Sub, t.sum_less, t.slope),
                },
                f,
            ),
        );
    }

    /// Makes this section a low-pass filter; it keeps its memory.
    pub fn set_lowpass<F: Fn(Wide, u64, u64) -> u64>(
        &mut self,
        sample_rate: u32,
        f0: u32,
        q: u32,
        f: &F,
    )
        requires
            crate::float_bits::at_most(LEAST_RATE, sample_rate),
            crate::wide::callable(*f),
        ensures
            forall|g: spec_fn(Wide, u64, u64) -> u64| #[trigger]
                crate::wide::computes(*f, g) ==> *final(self) == crate::dsp::biquad::tuned(
                    *old(self),
                    lowpass(sample_rate, f0, q, g),
                ),
    {
        let w: Angle = angle(sample_rate, f0, q, f);
        let b1: u64 = apply(f, Wide::Sub, ONE_WIDE, w.cos);
        let b0: u64 = apply(f, Wide::Div, b1, TWO_WIDE);
        self.assign(
            normalize(
                RawCoeffs {
                    b0,
                    b1,
                    b2: b0,
                    a0: apply(f, Wide::Add, ONE_WIDE, w.alpha),
                    a1: apply(f, Wide::Mul, MINUS_TWO_WIDE, w.cos),
                    a2: apply(f, Wide::Sub, ONE_WIDE, w.alpha),
                },
                f,
            ),
        );
    }

    /// Makes this section a high-pass filter; it keeps its memory.
    pub fn set_highpass<F: Fn(Wide, u64, u64) -> u64>(
        &mut self,
        sample_rate: u32,
        f0: u32,
        q: u32,
        f: &F,
    )
        requires
            crate::float_bits::at_most(LEAST_RATE, sample_rate),
            crate::wide::callable(*f),
        ensures
            forall|g: spec_fn(Wide, u64, u64) -> u64| #[trigger]
                crate::wide::computes(*f, g) ==> *final(self) == crate::dsp::biquad::tuned(
                    *old(self),
                    highpass(sample_rate, f0, q, g),
                ),
    {
        let w: Angle = angle(sample_rate, f0, q, f);
        let sum: u64 = apply(f, Wide::Add, ONE_WIDE, w.cos);
        let b0: u64 = apply(f, Wide::Div, sum, TWO_WIDE);
        self.assign(
            normalize(
                RawCoeffs {
                    b0,
                    b1: negate64(sum),
                    b2: b0,
                    a0: apply(f, Wide::Add, ONE_WIDE, w.alpha),
                    a1: apply(f, Wide::Mul, MINUS_TWO_WIDE, w.cos),
                    a2: apply(f, Wide::Sub, ONE_WIDE, w.alpha),
                },
                f,
            ),
        );
    }

    /// Makes this section the filter that a name means; a name that is not known means that
    /// nothing is filtered. It keeps its memory.
    pub fn set_from_kind<F: Fn(Wide, u64, u64) -> u64>(
        &mut self,
        kind: &str,
        sample_rate: u32,
        f0: u32,
        gain_db: u32,
        q: u32,
        f: &F,
    )
        requires
            crate::float_bits::at_most(LEAST_RATE, sample_rate),
            crate::wide::callable(*f),
        ensures
            forall|g: spec_fn(Wide, u64, u64) -> u64| #[trigger]
                crate::wide::computes(*f, g) ==> *final(self) == crate::dsp::biquad::tuned(
                    *old(self),
                    filter_of(crate::dsp::bands::kind_of(kind@), sample_rate, f0, gain_db, q, g),
                ),
    {
        match filter_kind(kind) {
            FilterKind::Peaking => self.set_peaking(sample_rate, f0, gain_db, q, f),
            FilterKind::LowShelf => self.set_low_shelf(sample_rate, f0, gain_db, q, f),
            FilterKind::HighShelf => self.set_high_shelf(sample_rate, f0, gain_db, q, f),
            FilterKind::Identity => self.assign(
                Coeffs { b0: ONE_BITS, b1: 0, b2: 0, a1: 0, a2: 0 },
            ),
        }
    }

    /// The coefficients of this section.
    pub fn coeffs(&self) -> (r: Coeffs)
        ensures
            crate::dsp::biquad::tuned(*self, r) == *self,
    {
        Coeffs { b0: self.b0, b1: self.b1, b2: self.b2, a1: self.a1, a2: self.a2 }
    }
}

/// The bits of 4.318: the quality of the bands of the graphic equalizer.
pub const DEFAULT_Q: u32 = 0x408a_2d0e;

/// The filters of the graphic equalizer for the gains of its bands.
pub open spec fn graphic_designs(
    rate: u32,
    gains: Seq<u32>,
    g: spec_fn(Wide, u64, u64) -> u64,
) -> Seq<Coeffs> {
    Seq::new(
        31,
        |i: int| peaking(rate, crate::presets::center_bits()[i], gains[i], DEFAULT_Q, g),
    )
}

/// Designs the filters of the graphic equalizer.
pub fn graphic_filters<F: Fn(Wide, u64, u64) -> u64>(
    sample_rate: u32,
    gains: &[u32; 31],
    f: &F,
) -> (r: Vec<Coeffs>)
    requires
        crate::float_bits::at_most(LEAST_RATE, sample_rate),
        crate::wide::callable(*f),
    ensures
        r@.len() == 31,
        forall|g: spec_fn(Wide, u64, u64) -> u64| #[trigger]
            crate::wide::computes(*f, g) ==> r@ == graphic_designs(sample_rate, gains@, g),
{
    let centers: [u32; 31] = iso_bits();
    let mut out: Vec<Coeffs> = Vec::new();
    let mut i: usize = 0;
    while i < 31
        invariant
            i <= 31,
            out@.len() == i,
            centers@ == crate::presets::center_bits(),
            crate::float_bits::at_most(LEAST_RATE, sample_rate),
            crate::wide::callable(*f),
            forall|g: spec_fn(Wide, u64, u64) -> u64, k: int|
                0 <= k < i && #[trigger] crate::wide::computes(*f, g) ==> #[trigger] out@[k]
                    == peaking(sample_rate, centers@[k], gains@[k], DEFAULT_Q, g),
        decreases 31 - i,
    {
        let mut section: Biquad = Biquad::identity();
        section.set_peaking(sample_rate, centers[i], gains[i], DEFAULT_Q, f);
        out.push(section.coeffs());
        i += 1;
    }
    assert forall|g: spec_fn(Wide, u64, u64) -> u64| #[trigger]
        crate::wide::computes(*f, g) implies out@ == graphic_designs(sample_rate, gains@, g) by {
        assert(out@ =~= graphic_designs(sample_rate, gains@, g));
    }
    out
}

/// The filter of a band of a headphone correction.
pub open spec fn band_design(
    rate: u32,
    band: ParametricBand,
    g: spec_fn(Wide, u64, u64) -> u64,
) -> Coeffs {
    filter_of(crate::dsp::bands::kind_of(band.kind@), rate, band.freq, band.gain, band.q, g)
}

/// Designs the filters of a headphone correction; of a long profile only the first bands count.
pub fn correction_filters<F: Fn(Wide, u64, u64) -> u64>(
    sample_rate: u32,
    bands: &Vec<ParametricBand>,
    f: &F,
) -> (r: Vec<Coeffs>)
    requires
        crate::float_bits::at_most(LEAST_RATE, sample_rate),
        crate::wide::callable(*f),
    ensures
        r@.len() == (if bands@.len() < MAX_BANDS {
            bands@.len()
        } else {
            MAX_BANDS as nat
        }),
        forall|g: spec_fn(Wide, u64, u64) -> u64, k: int|
            0 <= k < r@.len() && #[trigger] crate::wide::computes(*f, g) ==> #[trigger] r@[k]
                == band_design(sample_rate, bands@[k], g),
{
    let n: usize = active_bands(bands.len());
    let mut out: Vec<Coeffs> = Vec::new();
    let mut i: usize = 0;
    while i < n
        invariant
            i <= n <= bands@.len(),
            out@.len() == i,
            crate::float_bits::at_most(LEAST_RATE, sample_rate),
            crate::wide::callable(*f),
            forall|g: spec_fn(Wide, u64, u64) -> u64, k: int|
                0 <= k < i && #[trigger] crate::wide::computes(*f, g) ==> #[trigger] out@[k]
                    == band_design(sample_rate, bands@[k], g),
        decreases n - i,
    {
        let band: &ParametricBand = &bands[i];
        let mut section: Biquad = Biquad::identity();
        section.set_from_kind(&band.kind, sample_rate, band.freq, band.gain, band.q, f);
        out.push(section.coeffs());
        i += 1;
    }
    out
}

/// The bits of 0.25: a step of the filter of the oversampler in periods of its cutoff.
pub const TAP_STEP: u64 = 0x3fd0_0000_0000_0000;

/// The bits of 67.5: the center of that filter.
pub const TAP_CENTER: u64 = 0x4050_e000_0000_0000;

/// The bits of 135: its length.
pub const TAP_SPAN: u64 = 0x4060_e000_0000_0000;

/// The bits of 1e-12: nearer to the center than this the filter is one.
pub const TAP_MARGIN: u64 = 0x3d71_9799_812d_ea11;

/// The bits of half a turn and of two turns.
pub const HALF_TURN: u64 = 0x4009_21fb_5444_2d18;

pub const TWO_TURNS: u64 = 0x4029_21fb_5444_2d18;

/// The bits of the weights of the window: 0.42, 0.5 and 0.08.
pub const WINDOW_A: u64 = 0x3fda_e147_ae14_7ae1;

pub const WINDOW_B: u64 = 0x3fe0_0000_0000_0000;

pub const WINDOW_C: u64 = 0x3fb4_7ae1_47ae_147b;

/// The bits of four.
pub const FOUR_WIDE: u64 = 0x4010_0000_0000_0000;

/// A tap of the filter before the taps are brought to a sum of one: `sin(pi x) / (pi x)` under a
/// Blackman window.
pub open spec fn raw_tap(n: u64, g: spec_fn(Wide, u64, u64) -> u64) -> u64 {
    let place = g(Wide::Whole, n, 0);
    let x = g(Wide::Mul, TAP_STEP, g(Wide::Sub, place, TAP_CENTER));
    let arc = g(Wide::Mul, HALF_TURN, x);
    let sinc = if crate::wide::magnitude64(x) < TAP_MARGIN {
        ONE_WIDE
    } else {
        g(Wide::Div, g(Wide::Sin, arc, 0), arc)
    };
    let once = g(Wide::Cos, g(Wide::Div, g(Wide::Mul, TURN_WIDE, place), TAP_SPAN), 0);
    let twice = g(Wide::Cos, g(Wide::Div, g(Wide::Mul, TWO_TURNS, place), TAP_SPAN), 0);
    g(
        Wide::Mul,
        sinc,
        g(
            Wide::Add,
            g(Wide::Sub, WINDOW_A, g(Wide::Mul, WINDOW_B, once)),
            g(Wide::Mul, WINDOW_C, twice),
        ),
    )
}

fn tap<F: Fn(Wide, u64, u64) -> u64>(n: u64, f: &F) -> (r: u64)
    requires
        crate::wide::callable(*f),
    ensures
        forall|g: spec_fn(Wide, u64, u64) -> u64| #[trigger]
            crate::wide::computes(*f, g) ==> r == raw_tap(n, g),
{
    let place: u64 = apply(f, Wide::Whole, n, 0);
    let off: u64 = apply(f, Wide::Sub, place, TAP_CENTER);
    let x: u64 = apply(f, Wide::Mul, TAP_STEP, off);
    let arc: u64 = apply(f, Wide::Mul, HALF_TURN, x);
    let sinc: u64 = if bits_magnitude64(x) < TAP_MARGIN {
        ONE_WIDE
    } else {
        let sin: u64 = apply(f, Wide::Sin, arc, 0);
        apply(f, Wide::Div, sin, arc)
    };
    let turn: u64 = apply(f, Wide::Mul, TURN_WIDE, place);
    let turn: u64 = apply(f, Wide::Div, turn, TAP_SPAN);
    let once: u64 = apply(f, Wide::Cos, turn, 0);
    let turns: u64 = apply(f, Wide::Mul, TWO_TURNS, place);
    let turns: u64 = apply(f, Wide::Div, turns, TAP_SPAN);
    let twice: u64 = apply(f, Wide::Cos, turns, 0);
    let b: u64 = apply(f, Wide::Mul, WINDOW_B, once);
    let c: u64 = apply(f, Wide::Mul, WINDOW_C, twice);
    let ab: u64 = apply(f, Wide::Sub, WINDOW_A, b);
    let window: u64 = apply(f, Wide::Add, ab, c);
    apply(f, Wide::Mul, sinc, window)
}

/// The sum of the first `n` taps.
pub open spec fn tap_sum(n: nat, g: spec_fn(Wide, u64, u64) -> u64) -> u64
    decreases n,
{
    if n == 0 {
        0
    } else {
        g(Wide::Add, tap_sum((n - 1) as nat, g), raw_tap((n - 1) as u64, g))
    }
}

/// A tap brought to a sum of one.
pub open spec fn unit_tap(n: int, g: spec_fn(Wide, u64, u64) -> u64) -> u64 {
    g(Wide::Div, raw_tap(n as u64, g), tap_sum(136, g))
}

/// The taps of the oversampler, for going up, where they restore the level that the inserted
/// zeros take, and for going down.
pub fn oversampling_taps<F: Fn(Wide, u64, u64) -> u64>(f: &F) -> (r: (Vec<u32>, Vec<u32>))
    requires
        crate::wide::callable(*f),
    ensures
        r.0@.len() == NUM_TAPS,
        r.1@.len() == NUM_TAPS,
        forall|g: spec_fn(Wide, u64, u64) -> u64, k: int|
            0 <= k < NUM_TAPS && #[trigger] crate::wide::computes(*f, g) ==> #[trigger] r.0@[k]
                == crate::wide::narrowed(g(Wide::Mul, unit_tap(k, g), FOUR_WIDE), g),
        forall|g: spec_fn(Wide, u64, u64) -> u64, k: int|
            0 <= k < NUM_TAPS && #[trigger] crate::wide::computes(*f, g) ==> #[trigger] r.1@[k]
                == crate::wide::narrowed(unit_tap(k, g), g),
{
    let mut raw: Vec<u64> = Vec::new();
    let mut sum: u64 = 0;
    while raw.len() < NUM_TAPS
        invariant
            raw@.len() <= NUM_TAPS,
            crate::wide::callable(*f),
            forall|g: spec_fn(Wide, u64, u64) -> u64| #[trigger]
                crate::wide::computes(*f, g) ==> sum == tap_sum(raw@.len(), g),
            forall|g: spec_fn(Wide, u64, u64) -> u64, k: int|
                0 <= k < raw@.len() && #[trigger] crate::wide::computes(*f, g) ==> #[trigger] raw@[k]
                    == raw_tap(k as u64, g),
        decreases NUM_TAPS - raw@.len(),
    {
        let t: u64 = tap(raw.len() as u64, f);
        sum = apply(f, Wide::Add, sum, t);
        raw.push(t);
    }
    let mut up: Vec<u32> = Vec::new();
    let mut down: Vec<u32> = Vec::new();
    while up.len() < NUM_TAPS
        invariant
            up@.len() == down@.len() <= raw@.len() == NUM_TAPS,
            crate::wide::callable(*f),
            forall|g: spec_fn(Wide, u64, u64) -> u64| #[trigger]
                crate::wide::computes(*f, g) ==> sum == tap_sum(136, g),
            forall|g: spec_fn(Wide, u64, u64) -> u64, k: int|
                0 <= k < raw@.len() && #[trigger] crate::wide::computes(*f, g) ==> #[trigger] raw@[k]
                    == raw_tap(k as u64, g),
            forall|g: spec_fn(Wide, u64, u64) -> u64, k: int|
                0 <= k < up@.len() && #[trigger] crate::wide::computes(*f, g) ==> #[trigger] up@[k]
                    == crate::wide::narrowed(g(Wide::Mul, unit_tap(k, g), FOUR_WIDE), g),
            forall|g: spec_fn(Wide, u64, u64) -> u64, k: int|
                0 <= k < down@.len() && #[trigger] crate::wide::computes(*f, g) ==> #[trigger] down@[k]
                    == crate::wide::narrowed(unit_tap(k, g), g),
        decreases NUM_TAPS - up@.len(),
    {
        let t: u64 = apply(f, Wide::Div, raw[up.len()], sum);
        let raised: u64 = apply(f, Wide::Mul, t, FOUR_WIDE);
        up.push(narrow(f, raised));
        down.push(narrow(f, t));
    }
    (up, down)
}

} // verus!
