//! The equalizer and the headphone correction: a gain and a cascade of filters for each channel.

use vstd::prelude::*;
use crate::dsp::arith::{apply, Calc};
use crate::dsp::bands::{active_bands, channel_of, MAX_BANDS};
use crate::dsp::biquad::{cascade, Biquad, Coeffs};
use crate::float_bits::{same_value, ONE_BITS};

verus! {

/// The number of bands of the equalizer.
pub const EQ_BANDS: usize = 31;

/// A sample behind the gain and the first `active` sections.
pub open spec fn filtered(
    sections: Seq<Biquad>,
    gain: u32,
    active: nat,
    x: u32,
    g: spec_fn(Calc, u32, u32) -> u32,
) -> u32 {
    crate::dsp::biquad::cascade_out(sections, active, g(Calc::Mul, x, gain), g)
}

/// The filters of all channels behind the first `n` samples of an interleaved block, and the
/// block. Samples of channels that have no filters are left as they are.
pub open spec fn filtered_block(
    bank: Seq<Seq<Biquad>>,
    gain: u32,
    active: nat,
    buffer: Seq<u32>,
    channels: int,
    n: nat,
    g: spec_fn(Calc, u32, u32) -> u32,
) -> (Seq<Seq<Biquad>>, Seq<u32>)
    decreases n,
{
    if n == 0 {
        (bank, buffer)
    } else {
        let (k, b) = filtered_block(bank, gain, active, buffer, channels, (n - 1) as nat, g);
        let c = (n - 1) % channels;
        if c >= k.len() {
            (k, b)
        } else {
            let x = b[n - 1];
            (
                k.update(
                    c,
                    crate::dsp::biquad::cascade_next(k[c], active, g(Calc::Mul, x, gain), g),
                ),
                b.update(n - 1, filtered(k[c], gain, active, x, g)),
            )
        }
    }
}

/// Sections with the first ones tuned, which keep their memory.
pub open spec fn sections_tuned(sections: Seq<Biquad>, cs: Seq<Coeffs>) -> Seq<Biquad> {
    Seq::new(
        sections.len(),
        |i: int|
            if i < cs.len() {
                crate::dsp::biquad::tuned(sections[i], cs[i])
            } else {
                sections[i]
            },
    )
}

/// A section that passes the signal through and remembers nothing.
pub open spec fn fresh_section() -> Biquad {
    crate::dsp::biquad::tuned(
        Biquad { b0: 0, b1: 0, b2: 0, a1: 0, a2: 0, z1: 0, z2: 0 },
        crate::dsp::biquad::pass_through(),
    )
}

/// Fresh filters: `width` sections for each channel, the first ones tuned.
pub open spec fn fresh_bank(channels: nat, width: nat, cs: Seq<Coeffs>) -> Seq<Seq<Biquad>> {
    Seq::new(
        channels,
        |c: int| sections_tuned(Seq::new(width, |i: int| fresh_section()), cs),
    )
}

/// Filters for each channel.
pub struct FilterBank {
    width: usize,
    sections: Vec<Vec<Biquad>>,
}

impl View for FilterBank {
    type V = Seq<Seq<Biquad>>;

    closed spec fn view(&self) -> Seq<Seq<Biquad>> {
        self.sections@.map_values(|s: Vec<Biquad>| s@)
    }
}

impl FilterBank {
    /// Every channel has the same number of sections.
    pub closed spec fn wf(&self) -> bool {
        forall|c: int|
            0 <= c < self.sections@.len() ==> (#[trigger] self.sections@[c])@.len() == self.width
    }

    /// How many sections a channel has.
    pub closed spec fn width(&self) -> nat {
        self.width as nat
    }

    /// Fresh filters for at least one channel.
    pub fn new(channels: usize, width: usize, cs: &Vec<Coeffs>) -> (r: FilterBank)
        ensures
            r.wf(),
            r.width() == width,
            r@ == fresh_bank(
                (if channels < 1 {
                    1
                } else {
                    channels as int
                }) as nat,
                width as nat,
                cs@,
            ),
    {
        let n: usize = if channels < 1 {
            1
        } else {
            channels
        };
        let mut sections: Vec<Vec<Biquad>> = Vec::new();
        let mut c: usize = 0;
        while c < n
            invariant
                c <= n,
                sections@.len() == c,
                forall|k: int|
                    0 <= k < c ==> (#[trigger] sections@[k])@ == Seq::new(
                        width as nat,
                        |i: int| fresh_section(),
                    ),
            decreases n - c,
        {
            let mut row: Vec<Biquad> = Vec::new();
            let mut i: usize = 0;
            while i < width
                invariant
                    i <= width,
                    row@ == Seq::new(i as nat, |k: int| fresh_section()),
                decreases width - i,
            {
                row.push(Biquad::identity());
                i += 1;
                assert(row@ =~= Seq::new(i as nat, |k: int| fresh_section()));
            }
            sections.push(row);
            c += 1;
        }
        let mut r = FilterBank { width, sections };
        r.retune(cs);
        assert(r@ =~= fresh_bank(n as nat, width as nat, cs@));
        r
    }

    /// Tunes the first sections of every channel; all keep their memory.
    pub fn retune(&mut self, cs: &Vec<Coeffs>)
        requires
            old(self).wf(),
        ensures
            final(self).wf(),
            final(self).width() == old(self).width(),
            final(self)@ == old(self)@.map_values(|s: Seq<Biquad>| sections_tuned(s, cs@)),
    {
        let ghost before = self@;
        let ghost width = self.width;
        let mut c: usize = 0;
        while c < self.sections.len()
            invariant
                c <= self.sections@.len(),
                self.wf(),
                self.width == width,
                self@.len() == before.len(),
                self@.len() == self.sections@.len(),
                forall|k: int| 0 <= k < before.len() ==> (#[trigger] before[k]).len() == width,
                forall|k: int|
                    0 <= k < before.len() ==> #[trigger] self@[k] == (if k < c {
                        sections_tuned(before[k], cs@)
                    } else {
                        before[k]
                    }),
            decreases self.sections@.len() - c,
        {
            let ghost rows = self.sections@;
            let ghost views = self@;
            let mut row: Vec<Biquad> = Vec::new();
            let mut i: usize = 0;
            assert(views[c as int] == rows[c as int]@);
            while i < self.sections[c].len()
                invariant
                    c < self.sections@.len(),
                    self.sections@ == rows,
                    rows[c as int]@ == before[c as int],
                    i <= before[c as int].len(),
                    row@ == sections_tuned(before[c as int], cs@).subrange(0, i as int),
                decreases before[c as int].len() - i,
            {
                let mut section: Biquad = self.sections[c][i];
                if i < cs.len() {
                    section.assign(cs[i]);
                }
                row.push(section);
                i += 1;
                assert(row@ =~= sections_tuned(before[c as int], cs@).subrange(0, i as int));
            }
            assert(row@ =~= sections_tuned(before[c as int], cs@));
            self.sections.set(c, row);
            proof {
                assert forall|k: int| 0 <= k < self.sections@.len() implies (
                #[trigger] self.sections@[k])@.len() == width by {
                    if k != c {
                        assert(self.sections@[k] == rows[k]);
                    }
                }
                assert forall|k: int| 0 <= k < before.len() implies #[trigger] self@[k] == (if k
                    < c + 1 {
                    sections_tuned(before[k], cs@)
                } else {
                    before[k]
                }) by {
                    if k != c {
                        assert(self.sections@[k] == rows[k]);
                        assert(views[k] == rows[k]@);
                    }
                }
            }
            c += 1;
        }
        assert(self@ =~= before.map_values(|s: Seq<Biquad>| sections_tuned(s, cs@)));
    }

    /// Filters a block in place.
    pub fn process<F: Fn(Calc, u32, u32) -> u32>(
        &mut self,
        gain: u32,
        active: usize,
        buffer: &mut Vec<u32>,
        channels: usize,
        f: &F,
    )
        requires
            old(self).wf(),
            active <= old(self).width(),
            channels > 0,
            crate::dsp::arith::callable(*f),
        ensures
            final(self).wf(),
            final(self).width() == old(self).width(),
            final(buffer)@.len() == old(buffer)@.len(),
            forall|g: spec_fn(Calc, u32, u32) -> u32| #[trigger]
                crate::dsp::arith::computes(*f, g) ==> filtered_block(
                    old(self)@,
                    gain,
                    active as nat,
                    old(buffer)@,
                    channels as int,
                    old(buffer)@.len(),
                    g,
                ) == (final(self)@, final(buffer)@),
    {
        let ghost bank = self@;
        let ghost width = self.width;
        let mut n: usize = 0;
        while n < buffer.len()
            invariant
                n <= buffer@.len(),
                buffer@.len() == old(buffer)@.len(),
                self.wf(),
                self.width == width,
                active <= width,
                channels > 0,
                crate::dsp::arith::callable(*f),
                forall|g: spec_fn(Calc, u32, u32) -> u32| #[trigger]
                    crate::dsp::arith::computes(*f, g) ==> filtered_block(
                        bank,
                        gain,
                        active as nat,
                        old(buffer)@,
                        channels as int,
                        n as nat,
                        g,
                    ) == (self@, buffer@),
            decreases buffer@.len() - n,
        {
            let ghost views = self@;
            let ghost rows = self.sections@;
            let ghost block = buffer@;
            if let Some(c) = channel_of(n, channels, self.sections.len()) {
                let x: u32 = apply(f, Calc::Mul, buffer[n], gain);
                let mut row: Vec<Biquad> = Vec::new();
                assert(rows[c as int]@.len() == width);
                std::mem::swap(&mut row, &mut self.sections[c]);
                let y: u32 = cascade(&mut row, active, x, f);
                let ghost next = row@;
                std::mem::swap(&mut row, &mut self.sections[c]);
                buffer.set(n, y);
                proof {
                    assert(self.sections@[c as int]@ == next);
                    assert forall|k: int| 0 <= k < self.sections@.len() implies (
                    #[trigger] self.sections@[k])@.len() == width by {
                        if k != c {
                            assert(self.sections@[k] == rows[k]);
                        }
                    }
                    assert(self@ =~= views.update(c as int, next)) by {
                        assert forall|k: int| 0 <= k < views.len() implies #[trigger] self@[k]
                            == views.update(c as int, next)[k] by {
                            if k != c {
                                assert(self.sections@[k] == rows[k]);
                            }
                        }
                    }
                    assert(views[c as int] == rows[c as int]@);
                }
            }
            n += 1;
        }
    }
}

/// The equalizer.
pub struct GraphicEq {
    enabled: bool,
    pre_gain: u32,
    bank: FilterBank,
}

/// The state of the equalizer or of the headphone correction.
pub struct FilterView {
    pub enabled: bool,
    pub gain: u32,
    pub active: nat,
    pub bank: Seq<Seq<Biquad>>,
}

impl View for GraphicEq {
    type V = FilterView;

    closed spec fn view(&self) -> FilterView {
        FilterView {
            enabled: self.enabled,
            gain: self.pre_gain,
            active: EQ_BANDS as nat,
            bank: self.bank@,
        }
    }
}

impl GraphicEq {
    /// Every channel has all bands.
    pub closed spec fn wf(&self) -> bool {
        self.bank.wf() && self.bank.width() == EQ_BANDS
    }

    /// An equalizer that is switched on, with one filter for each band.
    pub fn new(channels: usize, cs: &Vec<Coeffs>) -> (r: GraphicEq)
        ensures
            r.wf(),
            r@ == (FilterView {
                enabled: true,
                gain: ONE_BITS,
                active: EQ_BANDS as nat,
                bank: fresh_bank(
                    (if channels < 1 {
                        1
                    } else {
                        channels as int
                    }) as nat,
                    EQ_BANDS as nat,
                    cs@,
                ),
            }),
    {
        GraphicEq { enabled: true, pre_gain: ONE_BITS, bank: FilterBank::new(channels, EQ_BANDS, cs) }
    }

    /// Starts anew for a format.
    pub fn prepare(&mut self, channels: usize, cs: &Vec<Coeffs>)
        ensures
            final(self).wf(),
            final(self)@ == (FilterView {
                bank: fresh_bank(
                    (if channels < 1 {
                        1
                    } else {
                        channels as int
                    }) as nat,
                    EQ_BANDS as nat,
                    cs@,
                ),
                ..old(self)@
            }),
    {
        self.bank = FilterBank::new(channels, EQ_BANDS, cs);
    }

    /// Takes settings and leaves the filters as they are.
    pub fn set_level(&mut self, enabled: bool, pre_gain: u32)
        requires
            old(self).wf(),
        ensures
            final(self).wf(),
            final(self)@ == (FilterView { enabled, gain: pre_gain, ..old(self)@ }),
    {
        self.enabled = enabled;
        self.pre_gain = pre_gain;
    }

    /// Takes settings. Filters that are tuned anew keep their memory, so that no click is heard.
    pub fn set_params(&mut self, enabled: bool, pre_gain: u32, cs: &Vec<Coeffs>)
        requires
            old(self).wf(),
        ensures
            final(self).wf(),
            final(self)@ == (FilterView {
                enabled,
                gain: pre_gain,
                bank: old(self)@.bank.map_values(|s: Seq<Biquad>| sections_tuned(s, cs@)),
                ..old(self)@
            }),
    {
        self.enabled = enabled;
        self.pre_gain = pre_gain;
        self.bank.retune(cs);
    }

    /// Filters a block in place; an equalizer that is off leaves it alone.
    pub fn process<F: Fn(Calc, u32, u32) -> u32>(
        &mut self,
        buffer: &mut Vec<u32>,
        channels: usize,
        f: &F,
    )
        requires
            old(self).wf(),
            crate::dsp::arith::callable(*f),
        ensures
            final(self).wf(),
            final(buffer)@.len() == old(buffer)@.len(),
            !old(self)@.enabled || channels == 0 ==> final(buffer)@ == old(buffer)@
                && final(self)@ == old(self)@,
            old(self)@.enabled && channels > 0 ==> forall|g: spec_fn(Calc, u32, u32) -> u32|
             #[trigger]
                crate::dsp::arith::computes(*f, g) ==> {
                    let (bank, block) = filtered_block(
                        old(self)@.bank,
                        old(self)@.gain,
                        EQ_BANDS as nat,
                        old(buffer)@,
                        channels as int,
                        old(buffer)@.len(),
                        g,
                    );
                    final(self)@ == (FilterView { bank, ..old(self)@ }) && final(buffer)@ == block
                },
    {
        if !self.enabled || channels == 0 {
            return;
        }
        self.bank.process(self.pre_gain, EQ_BANDS, buffer, channels, f);
    }
}

/// The correction of a pair of headphones.
pub struct HeadphoneCorrection {
    enabled: bool,
    preamp: u32,
    active: usize,
    bank: FilterBank,
}

impl View for HeadphoneCorrection {
    type V = FilterView;

    closed spec fn view(&self) -> FilterView {
        FilterView {
            enabled: self.enabled,
            gain: self.preamp,
            active: self.active as nat,
            bank: self.bank@,
        }
    }
}

/// The correction does something: it is on, and has bands or a gain.
pub open spec fn corrects(s: FilterView) -> bool {
    s.enabled && !(s.active == 0 && crate::float_bits::same(s.gain, ONE_BITS))
}

/// How many bands a profile uses.
pub open spec fn used_bands(count: nat) -> nat {
    if count < MAX_BANDS {
        count
    } else {
        MAX_BANDS as nat
    }
}

impl HeadphoneCorrection {
    /// Every channel has room for all bands.
    pub closed spec fn wf(&self) -> bool {
        self.bank.wf() && self.bank.width() == MAX_BANDS && self.active <= MAX_BANDS
    }

    /// A correction that is switched off and has no bands.
    pub fn new(channels: usize) -> (r: HeadphoneCorrection)
        ensures
            r.wf(),
            r@ == (FilterView {
                enabled: false,
                gain: ONE_BITS,
                active: 0,
                bank: fresh_bank(
                    (if channels < 1 {
                        1
                    } else {
                        channels as int
                    }) as nat,
                    MAX_BANDS as nat,
                    Seq::empty(),
                ),
            }),
    {
        let none: Vec<Coeffs> = Vec::new();
        HeadphoneCorrection {
            enabled: false,
            preamp: ONE_BITS,
            active: 0,
            bank: FilterBank::new(channels, MAX_BANDS, &none),
        }
    }

    /// Starts anew for a format.
    pub fn prepare(&mut self, channels: usize, cs: &Vec<Coeffs>)
        requires
            old(self).wf(),
        ensures
            final(self).wf(),
            final(self)@ == (FilterView {
                bank: fresh_bank(
                    (if channels < 1 {
                        1
                    } else {
                        channels as int
                    }) as nat,
                    MAX_BANDS as nat,
                    cs@,
                ),
                ..old(self)@
            }),
    {
        self.bank = FilterBank::new(channels, MAX_BANDS, cs);
    }

    /// Takes settings.
    pub fn set_params(&mut self, enabled: bool, preamp: u32)
        requires
            old(self).wf(),
        ensures
            final(self).wf(),
            final(self)@ == (FilterView { enabled, gain: preamp, ..old(self)@ }),
    {
        self.enabled = enabled;
        self.preamp = preamp;
    }

    /// Takes the bands of another profile; more than there is room for are not used.
    pub fn set_bands(&mut self, cs: &Vec<Coeffs>)
        requires
            old(self).wf(),
        ensures
            final(self).wf(),
            final(self)@ == (FilterView {
                active: used_bands(cs@.len()),
                bank: old(self)@.bank.map_values(|s: Seq<Biquad>| sections_tuned(s, cs@)),
                ..old(self)@
            }),
    {
        self.active = active_bands(cs.len());
        self.bank.retune(cs);
    }

    /// Corrects a block in place; a correction that does nothing leaves it alone.
    pub fn process<F: Fn(Calc, u32, u32) -> u32>(
        &mut self,
        buffer: &mut Vec<u32>,
        channels: usize,
        f: &F,
    )
        requires
            old(self).wf(),
            crate::dsp::arith::callable(*f),
        ensures
            final(self).wf(),
            final(buffer)@.len() == old(buffer)@.len(),
            !corrects(old(self)@) || channels == 0 ==> final(buffer)@ == old(buffer)@
                && final(self)@ == old(self)@,
            corrects(old(self)@) && channels > 0 ==> forall|g: spec_fn(Calc, u32, u32) -> u32|
             #[trigger]
                crate::dsp::arith::computes(*f, g) ==> {
                    let (bank, block) = filtered_block(
                        old(self)@.bank,
                        old(self)@.gain,
                        old(self)@.active,
                        old(buffer)@,
                        channels as int,
                        old(buffer)@.len(),
                        g,
                    );
                    final(self)@ == (FilterView { bank, ..old(self)@ }) && final(buffer)@ == block
                },
    {
        if !self.enabled || channels == 0 || (self.active == 0 && same_value(
            self.preamp,
            ONE_BITS,
        )) {
            return;
        }
        self.bank.process(self.preamp, self.active, buffer, channels, f);
    }
}

/// The channels are filtered independently: what comes out of one does not depend on the samples
/// and the filters of the others.
pub proof fn law_channels_are_independent(
    bank: Seq<Seq<Biquad>>,
    other: Seq<Seq<Biquad>>,
    gain: u32,
    active: nat,
    buffer: Seq<u32>,
    changed: Seq<u32>,
    channels: int,
    n: nat,
    c: int,
    g: spec_fn(Calc, u32, u32) -> u32,
)
    requires
        channels > 0,
        0 <= c < bank.len(),
        bank.len() == other.len(),
        bank[c] == other[c],
        buffer.len() == changed.len(),
        n <= buffer.len(),
        forall|i: int|
            0 <= i < buffer.len() && i % channels == c ==> #[trigger] buffer[i] == changed[i],
    ensures
        ({
            let (k, b) = filtered_block(bank, gain, active, buffer, channels, n, g);
            let (k2, b2) = filtered_block(other, gain, active, changed, channels, n, g);
            &&& k.len() == bank.len() && k2.len() == bank.len()
            &&& b.len() == buffer.len() && b2.len() == buffer.len()
            &&& k[c] == k2[c]
            &&& forall|i: int|
                0 <= i < buffer.len() && i % channels == c ==> #[trigger] b[i] == b2[i]
        }),
    decreases n,
{
    if n > 0 {
        let m = (n - 1) as nat;
        law_channels_are_independent(
            bank,
            other,
            gain,
            active,
            buffer,
            changed,
            channels,
            m,
            c,
            g,
        );
        let (k, b) = filtered_block(bank, gain, active, buffer, channels, m, g);
        let (k2, b2) = filtered_block(other, gain, active, changed, channels, m, g);
        let at = (n - 1) % channels;
        if at == c {
            assert(b[n - 1] == b2[n - 1]);
        }
    }
}

} // verus!
