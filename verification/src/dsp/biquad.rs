//! Filters with two poles and two zeros, and cascades of them.

use vstd::prelude::*;
use crate::dsp::arith::{apply, Calc};
use crate::float_bits::ONE_BITS;

verus! {

/// One section in the transposed direct form: its coefficients, and its memory of one channel.
#[derive(Debug, Clone, Copy, PartialEq, Eq, Structural)]
pub struct Biquad {
    pub b0: u32,
    pub b1: u32,
    pub b2: u32,
    pub a1: u32,
    pub a2: u32,
    pub z1: u32,
    pub z2: u32,
}

/// The coefficients of a section.
#[derive(Debug, Clone, Copy, PartialEq, Eq, Structural)]
pub struct Coeffs {
    pub b0: u32,
    pub b1: u32,
    pub b2: u32,
    pub a1: u32,
    pub a2: u32,
}

/// The coefficients that pass a signal through.
pub open spec fn pass_through() -> Coeffs {
    Coeffs { b0: ONE_BITS, b1: 0, b2: 0, a1: 0, a2: 0 }
}

/// What comes out of a section: `b0 * x + z1`.
pub open spec fn section_out(s: Biquad, x: u32, g: spec_fn(Calc, u32, u32) -> u32) -> u32 {
    crate::dsp::arith::scaled_sum(s.b0, x, s.z1, g)
}

/// The section behind a sample: `z1 = b1 * x - a1 * y + z2` and `z2 = b2 * x - a2 * y`.
pub open spec fn section_next(s: Biquad, x: u32, g: spec_fn(Calc, u32, u32) -> u32) -> Biquad {
    let y = section_out(s, x, g);
    Biquad {
        z1: g(
            Calc::Add,
            g(Calc::Sub, g(Calc::Mul, s.b1, x), g(Calc::Mul, s.a1, y)),
            s.z2,
        ),
        z2: g(Calc::Sub, g(Calc::Mul, s.b2, x), g(Calc::Mul, s.a2, y)),
        ..s
    }
}

/// A section with other coefficients, which keeps its memory.
pub open spec fn tuned(s: Biquad, c: Coeffs) -> Biquad {
    Biquad { b0: c.b0, b1: c.b1, b2: c.b2, a1: c.a1, a2: c.a2, ..s }
}

impl Biquad {
    /// A section that passes the signal through.
    pub fn identity() -> (r: Biquad)
        ensures
            r == tuned(Biquad { b0: 0, b1: 0, b2: 0, a1: 0, a2: 0, z1: 0, z2: 0 }, pass_through()),
    {
        Biquad { b0: ONE_BITS, b1: 0, b2: 0, a1: 0, a2: 0, z1: 0, z2: 0 }
    }

    /// Gives the section other coefficients; it keeps its memory, so that this can be done while
    /// it runs.
    pub fn assign(&mut self, c: Coeffs)
        ensures
            *final(self) == tuned(*old(self), c),
    {
        self.b0 = c.b0;
        self.b1 = c.b1;
        self.b2 = c.b2;
        self.a1 = c.a1;
        self.a2 = c.a2;
    }

    /// Clears the memory.
    pub fn reset(&mut self)
        ensures
            *final(self) == (Biquad { z1: 0, z2: 0, ..*old(self) }),
    {
        self.z1 = 0;
        self.z2 = 0;
    }

    /// Filters one sample.
    pub fn process_sample<F: Fn(Calc, u32, u32) -> u32>(&mut self, x: u32, f: &F) -> (y: u32)
        requires
            crate::dsp::arith::callable(*f),
        ensures
            forall|g: spec_fn(Calc, u32, u32) -> u32| #[trigger]
                crate::dsp::arith::computes(*f, g) ==> y == section_out(*old(self), x, g)
                    && *final(self) == section_next(*old(self), x, g),
    {
        let bx: u32 = apply(f, Calc::Mul, self.b0, x);
        let y: u32 = apply(f, Calc::Add, bx, self.z1);
        let b1x: u32 = apply(f, Calc::Mul, self.b1, x);
        let a1y: u32 = apply(f, Calc::Mul, self.a1, y);
        let d1: u32 = apply(f, Calc::Sub, b1x, a1y);
        let b2x: u32 = apply(f, Calc::Mul, self.b2, x);
        let a2y: u32 = apply(f, Calc::Mul, self.a2, y);
        self.z1 = apply(f, Calc::Add, d1, self.z2);
        self.z2 = apply(f, Calc::Sub, b2x, a2y);
        y
    }
}

impl Default for Biquad {
    fn default() -> (r: Biquad)
        ensures
            r == tuned(Biquad { b0: 0, b1: 0, b2: 0, a1: 0, a2: 0, z1: 0, z2: 0 }, pass_through()),
    {
        Biquad::identity()
    }
}

/// A sample behind the first `n` sections of a cascade.
pub open spec fn cascade_out(
    sections: Seq<Biquad>,
    n: nat,
    x: u32,
    g: spec_fn(Calc, u32, u32) -> u32,
) -> u32
    decreases n,
{
    if n == 0 {
        x
    } else {
        let y = cascade_out(sections, (n - 1) as nat, x, g);
        section_out(sections[n - 1], y, g)
    }
}

/// The cascade behind a sample that went through its first `n` sections.
pub open spec fn cascade_next(
    sections: Seq<Biquad>,
    n: nat,
    x: u32,
    g: spec_fn(Calc, u32, u32) -> u32,
) -> Seq<Biquad> {
    Seq::new(
        sections.len(),
        |k: int|
            if k < n {
                section_next(sections[k], cascade_out(sections, k as nat, x, g), g)
            } else {
                sections[k]
            },
    )
}

/// Filters one sample through the first `n` sections of a cascade.
pub fn cascade<F: Fn(Calc, u32, u32) -> u32>(
    sections: &mut Vec<Biquad>,
    n: usize,
    x: u32,
    f: &F,
) -> (y: u32)
    requires
        n <= old(sections)@.len(),
        crate::dsp::arith::callable(*f),
    ensures
        final(sections)@.len() == old(sections)@.len(),
        forall|g: spec_fn(Calc, u32, u32) -> u32| #[trigger]
            crate::dsp::arith::computes(*f, g) ==> y == cascade_out(
                old(sections)@,
                n as nat,
                x,
                g,
            ) && final(sections)@ == cascade_next(old(sections)@, n as nat, x, g),
{
    let mut y: u32 = x;
    let mut k: usize = 0;
    let ghost all = sections@;
    assert forall|g: spec_fn(Calc, u32, u32) -> u32| #[trigger]
        crate::dsp::arith::computes(*f, g) implies sections@ == cascade_next(all, 0, x, g) by {
        assert(sections@ =~= cascade_next(all, 0, x, g));
    }
    while k < n
        invariant
            k <= n <= sections@.len(),
            sections@.len() == all.len(),
            crate::dsp::arith::callable(*f),
            forall|g: spec_fn(Calc, u32, u32) -> u32| #[trigger]
                crate::dsp::arith::computes(*f, g) ==> y == cascade_out(all, k as nat, x, g)
                    && sections@ == cascade_next(all, k as nat, x, g),
        decreases n - k,
    {
        let ghost before = sections@;
        let ghost y0 = y;
        let mut section: Biquad = sections[k];
        y = section.process_sample(y, f);
        sections.set(k, section);
        assert forall|g: spec_fn(Calc, u32, u32) -> u32| #[trigger]
            crate::dsp::arith::computes(*f, g) implies sections@ == cascade_next(
            all,
            (k + 1) as nat,
            x,
            g,
        ) && y == cascade_out(all, (k + 1) as nat, x, g) by {
            assert(before == cascade_next(all, k as nat, x, g));
            assert(before[k as int] == all[k as int]);
            assert(sections@ =~= cascade_next(all, (k + 1) as nat, x, g));
        }
        k += 1;
    }
    y
}

} // verus!
