//! Putting the stems of a track together from overlapping parts: every part is faded in and out, the
//! parts are added up, and what was added is divided by the weights it had.

use vstd::prelude::*;
use crate::dsp::arith::{apply, Calc};
use crate::float_bits::{less_than, ONE_BITS};
use crate::stems::{interleave, transition_window, Part, Weight, STEM_COUNT};

verus! {

/// The bits of 1e-8: a sample with less weight is silent.
pub const LEAST_WEIGHT: u32 = 0x322b_cc77;

/// The longest part.
pub const LONGEST: usize = 0x3fff_ffff;

/// The number of a weight.
pub open spec fn weight_number(w: Weight, g: spec_fn(Calc, u32, u32) -> u32) -> u32 {
    g(Calc::Div, g(Calc::Whole, w.num as u32, 0), g(Calc::Whole, w.den as u32, 0))
}

/// The weights of the samples of a part, as numbers.
pub open spec fn window_of(segment: int, g: spec_fn(Calc, u32, u32) -> u32) -> Seq<u32> {
    Seq::new(
        segment as nat,
        |i: int|
            weight_number(
                crate::stems::weight_at(segment, crate::stems::edge_of(segment, i)),
                g,
            ),
    )
}

/// The weights of the samples of a part, as numbers.
pub fn window_numbers<F: Fn(Calc, u32, u32) -> u32>(segment: usize, f: &F) -> (r: Vec<u32>)
    requires
        segment <= LONGEST,
        crate::dsp::arith::callable(*f),
    ensures
        r@.len() == segment,
        forall|g: spec_fn(Calc, u32, u32) -> u32| #[trigger]
            crate::dsp::arith::computes(*f, g) ==> r@ == window_of(segment as int, g),
{
    let weights: Vec<Weight> = transition_window(segment);
    let mut out: Vec<u32> = Vec::new();
    while out.len() < segment
        invariant
            out@.len() <= segment == weights@.len(),
            segment <= LONGEST,
            crate::dsp::arith::callable(*f),
            forall|i: int|
                0 <= i < segment ==> #[trigger] weights@[i] == crate::stems::weight_at(
                    segment as int,
                    crate::stems::edge_of(segment as int, i),
                ),
            forall|g: spec_fn(Calc, u32, u32) -> u32, i: int|
                0 <= i < out@.len() && #[trigger] crate::dsp::arith::computes(*f, g)
                    ==> #[trigger] out@[i] == weight_number(weights@[i], g),
        decreases segment - out@.len(),
    {
        let w: &Weight = &weights[out.len()];
        proof {
            crate::stems::law_window_is_a_trapezoid(segment as int, out@.len() as int);
        }
        let num: u32 = apply(f, Calc::Whole, w.num as u32, 0);
        let den: u32 = apply(f, Calc::Whole, w.den as u32, 0);
        let number: u32 = apply(f, Calc::Div, num, den);
        out.push(number);
    }
    assert forall|g: spec_fn(Calc, u32, u32) -> u32| #[trigger]
        crate::dsp::arith::computes(*f, g) implies out@ == window_of(segment as int, g) by {
        assert(out@ =~= window_of(segment as int, g));
    }
    out
}

/// The samples of the stem that a model is trusted for, out of all that it yields: first one
/// channel, then the other. A model that yields less has none.
pub fn pick_row(all: &Vec<u32>, row: usize, segment: usize) -> (r: Option<Vec<u32>>)
    requires
        row < STEM_COUNT,
        segment <= LONGEST,
    ensures
        match r {
            Some(stem) => all@.len() >= (row + 1) * (2 * segment) && stem@ == all@.subrange(
                row * (2 * segment),
                (row + 1) * (2 * segment),
            ),
            None => all@.len() < (row + 1) * (2 * segment),
        },
{
    let span: u64 = 2 * segment as u64;
    assert(0 <= row * span <= (row + 1) * span <= 4 * 0x7fff_fffe) by (nonlinear_arith)
        requires
            row < 4,
            0 <= span <= 0x7fff_fffe,
    ;
    assert((row + 1) * span == row * span + span) by (nonlinear_arith);
    let from: u64 = row as u64 * span;
    let len: usize = all.len();
    if (len as u64) < from + span {
        return None;
    }
    let start: usize = from as usize;
    let mut out: Vec<u32> = Vec::new();
    while (out.len() as u64) < span
        invariant
            out@.len() <= span,
            start + span <= len == all@.len(),
            out@ == all@.subrange(start as int, start + out@.len()),
        decreases span - out@.len(),
    {
        out.push(all[start + out.len()]);
        assert(out@ =~= all@.subrange(start as int, start + out@.len()));
    }
    Some(out)
}

/// A channel with a weighted part added to it.
pub open spec fn with_part(
    sums: Seq<u32>,
    part: Part,
    plane: Seq<u32>,
    window: Seq<u32>,
    g: spec_fn(Calc, u32, u32) -> u32,
) -> Seq<u32> {
    Seq::new(
        sums.len(),
        |i: int|
            if part.offset <= i < part.offset + part.take {
                g(
                    Calc::Add,
                    sums[i],
                    g(Calc::Mul, plane[i - part.offset], window[i - part.offset]),
                )
            } else {
                sums[i]
            },
    )
}

/// The weights with those of a part added to them.
pub open spec fn with_weights(
    sums: Seq<u32>,
    part: Part,
    window: Seq<u32>,
    g: spec_fn(Calc, u32, u32) -> u32,
) -> Seq<u32> {
    Seq::new(
        sums.len(),
        |i: int|
            if part.offset <= i < part.offset + part.take {
                g(Calc::Add, sums[i], window[i - part.offset])
            } else {
                sums[i]
            },
    )
}

/// What has been added up so far.
pub struct OverlapView {
    /// The channels: of each stem the left and the right one.
    pub sums: Seq<Seq<u32>>,
    pub weights: Seq<u32>,
}

/// The stems of a track while they are put together.
pub struct Overlap {
    sums: Vec<Vec<u32>>,
    weights: Vec<u32>,
}

/// Silence.
pub open spec fn silence(n: int) -> Seq<u32> {
    Seq::new(n as nat, |i: int| 0u32)
}

/// What a sample is multiplied by in the end: one through its weight, and nothing where it has
/// almost none.
pub open spec fn share_of_weight(weight: u32, g: spec_fn(Calc, u32, u32) -> u32) -> u32 {
    if crate::float_bits::less(LEAST_WEIGHT, weight) {
        g(Calc::Div, ONE_BITS, weight)
    } else {
        0
    }
}

/// A finished stem: both channels interleaved.
pub open spec fn finished(
    v: OverlapView,
    slot: int,
    g: spec_fn(Calc, u32, u32) -> u32,
) -> Seq<u32> {
    Seq::new(
        2 * v.weights.len(),
        |i: int|
            g(
                Calc::Mul,
                v.sums[2 * slot + i % 2][i / 2],
                share_of_weight(v.weights[i / 2], g),
            ),
    )
}

impl Overlap {
    /// The sums and the weights are those of the same frames.
    pub closed spec fn wf(&self) -> bool {
        &&& self.sums@.len() == 2 * STEM_COUNT
        &&& forall|i: int| 0 <= i < self.sums@.len() ==> #[trigger] self.sums@[i]@.len()
            == self.weights@.len()
    }

    /// What has been added up so far.
    pub closed spec fn view(&self) -> OverlapView {
        OverlapView {
            sums: self.sums@.map_values(|s: Vec<u32>| s@),
            weights: self.weights@,
        }
    }

    /// Nothing of a track of some length.
    pub fn new(frames: usize) -> (r: Overlap)
        ensures
            r.wf(),
            r@.weights == silence(frames as int),
            r@.sums == Seq::new(8, |i: int| silence(frames as int)),
    {
        let mut sums: Vec<Vec<u32>> = Vec::new();
        while sums.len() < 2 * STEM_COUNT
            invariant
                sums@.len() <= 8,
                forall|i: int| 0 <= i < sums@.len() ==> #[trigger] sums@[i]@ == silence(
                    frames as int,
                ),
            decreases 8 - sums@.len(),
        {
            let plane: Vec<u32> = silent(frames);
            sums.push(plane);
        }
        let r = Overlap { sums, weights: silent(frames) };
        assert(r@.sums =~= Seq::new(8, |i: int| silence(frames as int)));
        r
    }

    /// Adds a part of a stem, with both of its channels one after the other.
    pub fn add_part<F: Fn(Calc, u32, u32) -> u32>(
        &mut self,
        slot: usize,
        part: Part,
        stem: &Vec<u32>,
        window: &Vec<u32>,
        f: &F,
    )
        requires
            old(self).wf(),
            slot < STEM_COUNT,
            stem@.len() == 2 * window@.len(),
            window@.len() <= LONGEST,
            part.take <= window@.len(),
            part.offset + part.take <= old(self)@.weights.len(),
            crate::dsp::arith::callable(*f),
        ensures
            final(self).wf(),
            final(self)@.weights == old(self)@.weights,
            final(self)@.sums.len() == old(self)@.sums.len(),
            forall|i: int|
                0 <= i < 8 && i != 2 * slot && i != 2 * slot + 1 ==> #[trigger] final(self)@.sums[i]
                    == old(self)@.sums[i],
            forall|g: spec_fn(Calc, u32, u32) -> u32| #[trigger]
                crate::dsp::arith::computes(*f, g) ==> final(self)@.sums[2 * slot] == with_part(
                    old(self)@.sums[2 * slot],
                    part,
                    stem@.subrange(0, window@.len() as int),
                    window@,
                    g,
                ) && final(self)@.sums[2 * slot + 1] == with_part(
                    old(self)@.sums[2 * slot + 1],
                    part,
                    stem@.subrange(window@.len() as int, window@.len() + window@.len() as int),
                    window@,
                    g,
                ),
    {
        let ghost before = self.sums@;
        let ghost was = self@;
        let n: usize = window.len();
        let mut left: Vec<u32> = self.sums[2 * slot].clone();
        let mut right: Vec<u32> = self.sums[2 * slot + 1].clone();
        assert(left@ =~= before[2 * slot]@);
        assert(right@ =~= before[2 * slot + 1]@);
        assert(was.sums[2 * slot] == before[2 * slot]@);
        assert(was.sums[2 * slot + 1] == before[2 * slot + 1]@);
        add_plane(&mut left, part, stem, 0, window, f);
        add_plane(&mut right, part, stem, n, window, f);
        self.sums.set(2 * slot, left);
        self.sums.set(2 * slot + 1, right);
        assert(self@.sums[2 * slot] == left@);
        assert(self@.sums[2 * slot + 1] == right@);
        assert forall|i: int|
            0 <= i < 8 && i != 2 * slot && i != 2 * slot + 1 implies #[trigger] self@.sums[i]
            == was.sums[i] by {
            assert(self.sums@[i] == before[i]);
        }
    }

    /// Adds the weights of a part.
    pub fn add_weights<F: Fn(Calc, u32, u32) -> u32>(
        &mut self,
        part: Part,
        window: &Vec<u32>,
        f: &F,
    )
        requires
            old(self).wf(),
            part.take <= window@.len(),
            part.offset + part.take <= old(self)@.weights.len(),
            crate::dsp::arith::callable(*f),
        ensures
            final(self).wf(),
            final(self)@.sums == old(self)@.sums,
            final(self)@.weights.len() == old(self)@.weights.len(),
            forall|g: spec_fn(Calc, u32, u32) -> u32| #[trigger]
                crate::dsp::arith::computes(*f, g) ==> final(self)@.weights == with_weights(
                    old(self)@.weights,
                    part,
                    window@,
                    g,
                ),
    {
        let ghost before = self.weights@;
        let ghost was = self@;
        let frames: usize = self.weights.len();
        let mut i: usize = 0;
        while i < part.take
            invariant
                i <= part.take <= window@.len(),
                part.offset + part.take <= frames == before.len(),
                self.weights@.len() == before.len(),
                self.wf(),
                self@.sums == was.sums,
                crate::dsp::arith::callable(*f),
                forall|k: int|
                    0 <= k < before.len() && !(part.offset <= k < part.offset + i)
                        ==> #[trigger] self.weights@[k] == before[k],
                forall|g: spec_fn(Calc, u32, u32) -> u32, k: int|
                    part.offset <= k < part.offset + i && #[trigger] crate::dsp::arith::computes(
                        *f,
                        g,
                    ) ==> #[trigger] self.weights@[k] == with_weights(before, part, window@, g)[k],
            decreases part.take - i,
        {
            let at: usize = part.offset + i;
            let sum: u32 = apply(f, Calc::Add, self.weights[at], window[i]);
            self.weights.set(at, sum);
            i += 1;
        }
        assert forall|g: spec_fn(Calc, u32, u32) -> u32| #[trigger]
            crate::dsp::arith::computes(*f, g) implies self.weights@ == with_weights(
            before,
            part,
            window@,
            g,
        ) by {
            assert(self.weights@ =~= with_weights(before, part, window@, g));
        }
    }

    /// A finished stem.
    pub fn finish<F: Fn(Calc, u32, u32) -> u32>(&self, slot: usize, f: &F) -> (r: Vec<u32>)
        requires
            self.wf(),
            slot < STEM_COUNT,
            crate::dsp::arith::callable(*f),
        ensures
            r@.len() == 2 * self@.weights.len(),
            forall|g: spec_fn(Calc, u32, u32) -> u32| #[trigger]
                crate::dsp::arith::computes(*f, g) ==> r@ == finished(self@, slot as int, g),
    {
        let frames: usize = self.weights.len();
        let left: &Vec<u32> = &self.sums[2 * slot];
        let right: &Vec<u32> = &self.sums[2 * slot + 1];
        assert(self@.sums[2 * slot] == left@);
        assert(self@.sums[2 * slot + 1] == right@);
        let mut l: Vec<u32> = Vec::new();
        let mut r: Vec<u32> = Vec::new();
        while l.len() < frames
            invariant
                l@.len() == r@.len() <= frames == self.weights@.len(),
                left@.len() == frames,
                right@.len() == frames,
                crate::dsp::arith::callable(*f),
                forall|g: spec_fn(Calc, u32, u32) -> u32, k: int|
                    0 <= k < l@.len() && #[trigger] crate::dsp::arith::computes(*f, g)
                        ==> #[trigger] l@[k] == g(
                        Calc::Mul,
                        left@[k],
                        share_of_weight(self.weights@[k], g),
                    ),
                forall|g: spec_fn(Calc, u32, u32) -> u32, k: int|
                    0 <= k < r@.len() && #[trigger] crate::dsp::arith::computes(*f, g)
                        ==> #[trigger] r@[k] == g(
                        Calc::Mul,
                        right@[k],
                        share_of_weight(self.weights@[k], g),
                    ),
            decreases frames - l@.len(),
        {
            let i: usize = l.len();
            let weight: u32 = self.weights[i];
            let share: u32 = if less_than(LEAST_WEIGHT, weight) {
                apply(f, Calc::Div, ONE_BITS, weight)
            } else {
                0
            };
            l.push(apply(f, Calc::Mul, left[i], share));
            r.push(apply(f, Calc::Mul, right[i], share));
        }
        let out: Vec<u32> = interleave(&l, &r);
        assert forall|g: spec_fn(Calc, u32, u32) -> u32| #[trigger]
            crate::dsp::arith::computes(*f, g) implies out@ == finished(self@, slot as int, g) by {
            let want = finished(self@, slot as int, g);
            assert forall|k: int| 0 <= k < out@.len() implies out@[k] == want[k] by {
                let at = k / 2;
                if k % 2 == 0 {
                    assert(k == 2 * at);
                    assert(out@[2 * at] == l@[at]);
                } else {
                    assert(k == 2 * at + 1);
                    assert(out@[2 * at + 1] == r@[at]);
                }
            }
            assert(out@ =~= want);
        }
        out
    }
}

fn silent(n: usize) -> (r: Vec<u32>)
    ensures
        r@ == silence(n as int),
{
    let mut out: Vec<u32> = Vec::new();
    while out.len() < n
        invariant
            out@.len() <= n,
            forall|i: int| 0 <= i < out@.len() ==> #[trigger] out@[i] == 0,
        decreases n - out@.len(),
    {
        out.push(0);
    }
    assert(out@ =~= silence(n as int));
    out
}

fn add_plane<F: Fn(Calc, u32, u32) -> u32>(
    sums: &mut Vec<u32>,
    part: Part,
    stem: &Vec<u32>,
    from: usize,
    window: &Vec<u32>,
    f: &F,
)
    requires
        part.take <= window@.len(),
        part.offset + part.take <= old(sums)@.len(),
        from + window@.len() <= stem@.len(),
        crate::dsp::arith::callable(*f),
    ensures
        final(sums)@.len() == old(sums)@.len(),
        forall|g: spec_fn(Calc, u32, u32) -> u32| #[trigger]
            crate::dsp::arith::computes(*f, g) ==> final(sums)@ == with_part(
                old(sums)@,
                part,
                stem@.subrange(from as int, from + window@.len()),
                window@,
                g,
            ),
{
    let ghost before = sums@;
    let ghost plane = stem@.subrange(from as int, from + window@.len());
    let frames: usize = sums.len();
    let available: usize = stem.len();
    let mut i: usize = 0;
    while i < part.take
        invariant
            i <= part.take <= window@.len(),
            part.offset + part.take <= frames == before.len(),
            from + window@.len() <= available == stem@.len(),
            plane == stem@.subrange(from as int, from + window@.len()),
            sums@.len() == before.len(),
            crate::dsp::arith::callable(*f),
            forall|k: int|
                0 <= k < before.len() && !(part.offset <= k < part.offset + i)
                    ==> #[trigger] sums@[k] == before[k],
            forall|g: spec_fn(Calc, u32, u32) -> u32, k: int|
                part.offset <= k < part.offset + i && #[trigger] crate::dsp::arith::computes(*f, g)
                    ==> #[trigger] sums@[k] == with_part(before, part, plane, window@, g)[k],
        decreases part.take - i,
    {
        let at: usize = part.offset + i;
        let x: u32 = stem[from + i];
        assert(x == plane[i as int]);
        let faded: u32 = apply(f, Calc::Mul, x, window[i]);
        let sum: u32 = apply(f, Calc::Add, sums[at], faded);
        sums.set(at, sum);
        i += 1;
    }
    assert forall|g: spec_fn(Calc, u32, u32) -> u32| #[trigger]
        crate::dsp::arith::computes(*f, g) implies sums@ == with_part(
        before,
        part,
        plane,
        window@,
        g,
    ) by {
        assert(sums@ =~= with_part(before, part, plane, window@, g));
    }
}

/// A part changes nothing outside of it.
pub proof fn law_parts_stay_in_place(
    sums: Seq<u32>,
    part: Part,
    plane: Seq<u32>,
    window: Seq<u32>,
    i: int,
    g: spec_fn(Calc, u32, u32) -> u32,
)
    requires
        0 <= i < sums.len(),
        !(part.offset <= i < part.offset + part.take),
    ensures
        with_part(sums, part, plane, window, g)[i] == sums[i],
        with_weights(sums, part, window, g)[i] == sums[i],
{
}

/// A weight further along a transition is larger, the last one is one, and the more weight a sample
/// has been given the less of its sum is taken: of a weight of one, all.
pub proof fn law_weights_are_divided_out(
    v: Weight,
    w: Weight,
    x: u32,
    y: u32,
    g: spec_fn(Calc, u32, u32) -> u32,
)
    requires
        crate::dsp::numbers::ordinary(g),
        v.num <= w.num <= w.den <= LONGEST,
        v.den == w.den,
        w.den > 0,
        crate::float_bits::less(LEAST_WEIGHT, x),
        crate::float_bits::at_most(x, y),
        crate::float_bits::finite(y),
    ensures
        crate::float_bits::at_most(weight_number(v, g), weight_number(w, g)),
        w.num == w.den ==> crate::float_bits::same(weight_number(w, g), ONE_BITS),
        crate::float_bits::at_most(share_of_weight(y, g), share_of_weight(x, g)),
        crate::float_bits::same(share_of_weight(ONE_BITS, g), ONE_BITS),
{
    reveal(crate::dsp::numbers::ordinary);
    let (a, b, d) = (
        g(Calc::Whole, v.num as u32, 0),
        g(Calc::Whole, w.num as u32, 0),
        g(Calc::Whole, w.den as u32, 0),
    );
    assert(crate::float_bits::at_most(a, b));
    assert(crate::float_bits::at_most(g(Calc::Whole, 1, 0), d));
    assert(crate::dsp::numbers::within(d, 32) && crate::dsp::numbers::positive(d));
    assert(crate::dsp::numbers::positive(x));
}

} // verus!
