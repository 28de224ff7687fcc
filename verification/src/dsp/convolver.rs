//! The convolver works on blocks of fixed size, while samples come and go one by one. The impulse
//! response is cut into parts, and each block is answered by a sum over the last windows.

use vstd::prelude::*;
use std::collections::VecDeque;
use crate::dsp::arith::{apply, Calc};
use crate::dsp::delay::{silence, Ring};

verus! {

/// The size of a block, by which the output is late.
pub const CONV_BLOCK: usize = 256;

/// The size of the window that is transformed: the last block and the new one.
pub const CONV_FFT: usize = 512;

/// The samples that came in, the samples that were computed for them, and how many went out.
pub struct StreamView {
    pub inputs: Seq<u32>,
    pub wet: Seq<u32>,
    pub emitted: int,
}

/// A block has been handed out for which nothing was computed yet.
pub open spec fn waiting(s: StreamView) -> bool {
    s.inputs.len() - s.wet.len() == CONV_BLOCK
}

/// The sample that goes out with a number: silence for the first block, then what was computed.
pub open spec fn output_at(wet: Seq<u32>, i: int) -> u32 {
    if i < CONV_BLOCK {
        0
    } else {
        wet[i - CONV_BLOCK]
    }
}

/// A stream of samples that is computed block by block.
pub struct BlockStream {
    block: Vec<u32>,
    fifo: VecDeque<u32>,
    inputs: Ghost<Seq<u32>>,
    wet: Ghost<Seq<u32>>,
    emitted: Ghost<int>,
}

impl View for BlockStream {
    type V = StreamView;

    closed spec fn view(&self) -> StreamView {
        StreamView { inputs: self.inputs@, wet: self.wet@, emitted: self.emitted@ }
    }
}

impl BlockStream {
    /// What was computed covers the full blocks; the rest of the input is held, and what was
    /// computed and has not gone out is held too.
    pub closed spec fn wf(&self) -> bool {
        let s = self@;
        &&& 0 <= s.emitted <= s.inputs.len()
        &&& s.inputs.len() - s.wet.len() <= CONV_BLOCK
        &&& s.wet.len() <= s.inputs.len()
        &&& s.wet.len() % CONV_BLOCK as nat == 0
        &&& s.inputs.len() <= s.emitted + 1
        &&& waiting(s) ==> s.inputs.len() == s.emitted + 1
        &&& if waiting(s) {
            self.block@.len() == 0
        } else {
            self.block@ == s.inputs.skip(s.wet.len() as int)
        }
        &&& self.fifo@.len() == CONV_BLOCK + s.wet.len() - s.emitted
        &&& forall|k: int|
            0 <= k < self.fifo@.len() ==> #[trigger] self.fifo@[k] == output_at(
                s.wet,
                s.emitted + k,
            )
    }

    /// Where every sample was answered, no more than a part of a block is held.
    pub proof fn lemma_answered(&self)
        requires
            self.wf(),
            self@.emitted == self@.inputs.len(),
        ensures
            0 <= self@.inputs.len() - self@.wet.len() < CONV_BLOCK,
    {
    }

    /// A stream that no sample has entered.
    pub fn new() -> (r: BlockStream)
        ensures
            r.wf(),
            r@.inputs == Seq::<u32>::empty(),
            r@.wet == Seq::<u32>::empty(),
            r@.emitted == 0,
    {
        let mut fifo: VecDeque<u32> = VecDeque::new();
        let mut i: usize = 0;
        while i < CONV_BLOCK
            invariant
                i <= CONV_BLOCK,
                fifo@.len() == i,
                forall|k: int| 0 <= k < i ==> #[trigger] fifo@[k] == 0,
            decreases CONV_BLOCK - i,
        {
            fifo.push_back(0);
            i += 1;
        }
        let block: Vec<u32> = Vec::new();
        assert(block@ =~= Seq::<u32>::empty().skip(0));
        BlockStream {
            block,
            fifo,
            inputs: Ghost(Seq::empty()),
            wet: Ghost(Seq::empty()),
            emitted: Ghost(0),
        }
    }

    /// Takes a sample. Where it fills a block, the block is the result, and has to be answered
    /// before the next sample goes out.
    pub fn feed(&mut self, x: u32) -> (r: Option<Vec<u32>>)
        requires
            old(self).wf(),
            old(self)@.emitted == old(self)@.inputs.len(),
        ensures
            final(self).wf(),
            final(self)@.inputs == old(self)@.inputs.push(x),
            final(self)@.wet == old(self)@.wet,
            final(self)@.emitted == old(self)@.emitted,
            match r {
                Some(block) => waiting(final(self)@) && block@ == final(self)@.inputs.skip(
                    final(self)@.wet.len() as int,
                ),
                None => !waiting(final(self)@),
            },
    {
        let ghost before = self@;
        self.block.push(x);
        self.inputs = Ghost(before.inputs.push(x));
        assert(self.block@ =~= self.inputs@.skip(before.wet.len() as int));
        if self.block.len() == CONV_BLOCK {
            let mut full: Vec<u32> = Vec::new();
            std::mem::swap(&mut full, &mut self.block);
            Some(full)
        } else {
            None
        }
    }

    /// A block that was handed out is full.
    pub proof fn lemma_block(&self, block: Seq<u32>)
        requires
            self.wf(),
            waiting(self@),
            block == self@.inputs.skip(self@.wet.len() as int),
        ensures
            block.len() == CONV_BLOCK,
    {
    }

    /// Takes what was computed for the block that was handed out.
    pub fn answer(&mut self, wet: &Vec<u32>)
        requires
            old(self).wf(),
            waiting(old(self)@),
            wet@.len() == CONV_BLOCK,
        ensures
            final(self).wf(),
            final(self)@.inputs == old(self)@.inputs,
            final(self)@.wet == old(self)@.wet + wet@,
            final(self)@.emitted == old(self)@.emitted,
            !waiting(final(self)@),
    {
        let ghost before = self@;
        let ghost held = self.fifo@;
        let mut i: usize = 0;
        while i < wet.len()
            invariant
                i <= wet@.len() == CONV_BLOCK,
                self.fifo@ == held + wet@.take(i as int),
                self.block@ == old(self).block@,
                self.inputs == old(self).inputs,
                self.wet == old(self).wet,
                self.emitted == old(self).emitted,
            decreases wet@.len() - i,
        {
            self.fifo.push_back(wet[i]);
            i += 1;
            assert(self.fifo@ =~= held + wet@.take(i as int));
        }
        assert(wet@.take(i as int) =~= wet@);
        self.wet = Ghost(before.wet + wet@);
        proof {
            let all = self.wet@;
            assert(self.block@ =~= self.inputs@.skip(all.len() as int));
            assert forall|k: int| 0 <= k < self.fifo@.len() implies #[trigger] self.fifo@[k]
                == output_at(all, before.emitted + k) by {
                if k < held.len() {
                    assert(self.fifo@[k] == held[k]);
                } else {
                    assert(self.fifo@[k] == wet@[k - held.len()]);
                }
            }
        }
    }

    /// The next sample that goes out: for each that came in there is one.
    pub fn next(&mut self) -> (r: u32)
        requires
            old(self).wf(),
            old(self)@.emitted < old(self)@.inputs.len(),
            !waiting(old(self)@),
        ensures
            final(self).wf(),
            final(self)@.inputs == old(self)@.inputs,
            final(self)@.wet == old(self)@.wet,
            final(self)@.emitted == old(self)@.emitted + 1,
            r == output_at(old(self)@.wet, old(self)@.emitted),
    {
        let ghost before = self@;
        let ghost held = self.fifo@;
        let r = self.fifo.pop_front();
        self.emitted = Ghost(before.emitted + 1);
        proof {
            assert(self.fifo@ =~= held.subrange(1, held.len() as int));
            assert(held[0] == output_at(before.wet, before.emitted));
            assert forall|k: int| 0 <= k < self.fifo@.len() implies #[trigger] self.fifo@[k]
                == output_at(before.wet, before.emitted + 1 + k) by {
                assert(self.fifo@[k] == held[k + 1]);
            }
        }
        match r {
            Some(v) => v,
            None => 0,
        }
    }
}

/// The output is late by one block: a sample goes out when it was computed for a sample that came
/// in one block before.
pub proof fn law_the_stream_is_one_block_late(s: StreamView, i: int)
    requires
        0 <= i < s.wet.len(),
    ensures
        output_at(s.wet, i + CONV_BLOCK) == s.wet[i],
        0 <= i < CONV_BLOCK ==> output_at(s.wet, i) == 0,
{
}

/// The window that is transformed: the second half of the last one, and the new block.
pub fn slide(window: &Vec<u32>, block: &Vec<u32>) -> (r: Vec<u32>)
    requires
        window@.len() == CONV_FFT,
        block@.len() == CONV_BLOCK,
    ensures
        r@ == window@.skip(CONV_BLOCK as int) + block@,
{
    let mut out: Vec<u32> = Vec::new();
    let mut i: usize = 0;
    while i < CONV_BLOCK
        invariant
            i <= CONV_BLOCK,
            window@.len() == CONV_FFT,
            out@ == window@.skip(CONV_BLOCK as int).take(i as int),
        decreases CONV_BLOCK - i,
    {
        out.push(window[CONV_BLOCK + i]);
        i += 1;
        assert(out@ =~= window@.skip(CONV_BLOCK as int).take(i as int));
    }
    i = 0;
    assert(block@.take(0) =~= Seq::empty());
    assert(out@ =~= window@.skip(CONV_BLOCK as int) + block@.take(0));
    while i < CONV_BLOCK
        invariant
            i <= CONV_BLOCK,
            block@.len() == CONV_BLOCK,
            out@ == window@.skip(CONV_BLOCK as int) + block@.take(i as int),
        decreases CONV_BLOCK - i,
    {
        out.push(block[i]);
        i += 1;
        assert(out@ =~= window@.skip(CONV_BLOCK as int) + block@.take(i as int));
    }
    assert(block@.take(i as int) =~= block@);
    out
}

/// The number of bins of a transformed window.
pub const BINS: usize = 257;

/// The bits of 1/512, by which a window is divided that was transformed back.
pub const SCALE: u32 = 0x3b00_0000;

/// A sum with a product of complex numbers added.
pub open spec fn product_added(
    sum: (u32, u32),
    x: (u32, u32),
    h: (u32, u32),
    g: spec_fn(Calc, u32, u32) -> u32,
) -> (u32, u32) {
    (
        g(
            Calc::Add,
            sum.0,
            g(Calc::Sub, g(Calc::Mul, x.0, h.0), g(Calc::Mul, x.1, h.1)),
        ),
        g(
            Calc::Add,
            sum.1,
            g(Calc::Add, g(Calc::Mul, x.0, h.1), g(Calc::Mul, x.1, h.0)),
        ),
    )
}

fn add_product<F: Fn(Calc, u32, u32) -> u32>(
    sum: (u32, u32),
    x: (u32, u32),
    h: (u32, u32),
    f: &F,
) -> (r: (u32, u32))
    requires
        crate::dsp::arith::callable(*f),
    ensures
        forall|g: spec_fn(Calc, u32, u32) -> u32| #[trigger]
            crate::dsp::arith::computes(*f, g) ==> r == product_added(sum, x, h, g),
{
    let a: u32 = apply(f, Calc::Mul, x.0, h.0);
    let b: u32 = apply(f, Calc::Mul, x.1, h.1);
    let c: u32 = apply(f, Calc::Mul, x.0, h.1);
    let d: u32 = apply(f, Calc::Mul, x.1, h.0);
    let re: u32 = apply(f, Calc::Sub, a, b);
    let im: u32 = apply(f, Calc::Add, c, d);
    (apply(f, Calc::Add, sum.0, re), apply(f, Calc::Add, sum.1, im))
}

/// One bin of the response: the last `n` transformed windows, the newest first, each multiplied by
/// its part of the impulse response.
pub open spec fn bin_sum(
    past: Seq<Seq<(u32, u32)>>,
    ir: Seq<Seq<(u32, u32)>>,
    bin: int,
    n: nat,
    g: spec_fn(Calc, u32, u32) -> u32,
) -> (u32, u32)
    decreases n,
{
    if n == 0 {
        (0, 0)
    } else {
        product_added(
            bin_sum(past, ir, bin, (n - 1) as nat, g),
            past[n - 1][bin],
            ir[n - 1][bin],
            g,
        )
    }
}

/// How many parts of an impulse response are used: no more than windows are kept.
pub open spec fn used_parts(ir: nat, kept: nat) -> nat {
    if ir < kept {
        ir
    } else {
        kept
    }
}

/// The transformed response. The first and the last bin have no imaginary part.
pub open spec fn response(
    past: Seq<Seq<(u32, u32)>>,
    ir: Seq<Seq<(u32, u32)>>,
    g: spec_fn(Calc, u32, u32) -> u32,
) -> Seq<(u32, u32)> {
    Seq::new(
        257,
        |b: int|
            {
                let sum = bin_sum(past, ir, b, used_parts(ir.len(), past.len()), g);
                if b == 0 || b == 256 {
                    (sum.0, 0u32)
                } else {
                    sum
                }
            },
    )
}

/// The contents of spectra.
pub open spec fn spectra_views(spectra: Seq<Vec<(u32, u32)>>) -> Seq<Seq<(u32, u32)>> {
    spectra.map_values(|s: Vec<(u32, u32)>| s@)
}

/// An impulse response in transformed parts, each with all bins.
pub open spec fn prepared(ir: Seq<Seq<(u32, u32)>>) -> bool {
    forall|k: int| 0 <= k < ir.len() ==> (#[trigger] ir[k]).len() == BINS
}

/// A convolver: its stream, its last window and its transformed windows, the newest first.
pub struct ConvolverView {
    pub stream: StreamView,
    pub window: Seq<u32>,
    pub past: Seq<Seq<(u32, u32)>>,
}

/// The function that transforms windows takes every window and yields all bins.
pub open spec fn transformable<T: Fn(&Vec<u32>) -> Vec<(u32, u32)>>(forward: T) -> bool {
    &&& forall|w: &Vec<u32>|
        w@.len() == CONV_FFT ==> #[trigger] call_requires(forward, (w,))
    &&& forall|w: &Vec<u32>, s: Vec<(u32, u32)>|
        w@.len() == CONV_FFT && #[trigger] call_ensures(forward, (w,), s) ==> s@.len() == BINS
}

/// The function `forward` always transforms a window into what `t` says.
pub open spec fn transforms<T: Fn(&Vec<u32>) -> Vec<(u32, u32)>>(
    forward: T,
    t: spec_fn(Seq<u32>) -> Seq<(u32, u32)>,
) -> bool {
    forall|w: &Vec<u32>, s: Vec<(u32, u32)>| #[trigger]
        call_ensures(forward, (w,), s) ==> s@ == t(w@)
}

/// The function that transforms bins back takes all of them and yields a window.
pub open spec fn reversible<B: Fn(&Vec<(u32, u32)>) -> Vec<u32>>(back: B) -> bool {
    &&& forall|s: &Vec<(u32, u32)>|
        s@.len() == BINS ==> #[trigger] call_requires(back, (s,))
    &&& forall|s: &Vec<(u32, u32)>, w: Vec<u32>|
        s@.len() == BINS && #[trigger] call_ensures(back, (s,), w) ==> w@.len() == CONV_FFT
}

/// The function `back` always transforms bins into what `b` says.
pub open spec fn reverses<B: Fn(&Vec<(u32, u32)>) -> Vec<u32>>(
    back: B,
    b: spec_fn(Seq<(u32, u32)>) -> Seq<u32>,
) -> bool {
    forall|s: &Vec<(u32, u32)>, w: Vec<u32>| #[trigger]
        call_ensures(back, (s,), w) ==> w@ == b(s@)
}

/// A full block has been answered: its window is transformed and kept, and the second half of the
/// response, transformed back and scaled, is what was computed for the block.
pub open spec fn block_step(
    s: ConvolverView,
    ir: Seq<Seq<(u32, u32)>>,
    t: spec_fn(Seq<u32>) -> Seq<(u32, u32)>,
    b: spec_fn(Seq<(u32, u32)>) -> Seq<u32>,
    g: spec_fn(Calc, u32, u32) -> u32,
) -> ConvolverView {
    let window = s.window.skip(256) + s.stream.inputs.skip(s.stream.wet.len() as int);
    let past = crate::dsp::delay::pushed(s.past, t(window));
    let wet = b(response(past, ir, g)).skip(256).map_values(|v: u32| g(Calc::Mul, v, SCALE));
    ConvolverView {
        window,
        past,
        stream: StreamView { wet: s.stream.wet + wet, ..s.stream },
    }
}

/// A sample has come in, and one has gone out.
pub open spec fn sample_step(
    s: ConvolverView,
    x: u32,
    ir: Seq<Seq<(u32, u32)>>,
    t: spec_fn(Seq<u32>) -> Seq<(u32, u32)>,
    b: spec_fn(Seq<(u32, u32)>) -> Seq<u32>,
    g: spec_fn(Calc, u32, u32) -> u32,
) -> ConvolverView {
    let fed = ConvolverView {
        stream: StreamView { inputs: s.stream.inputs.push(x), ..s.stream },
        ..s
    };
    let done = if waiting(fed.stream) {
        block_step(fed, ir, t, b, g)
    } else {
        fed
    };
    ConvolverView { stream: StreamView { emitted: done.stream.emitted + 1, ..done.stream }, ..done }
}

/// Samples have come in one by one.
pub open spec fn convolved(
    s: ConvolverView,
    input: Seq<u32>,
    ir: Seq<Seq<(u32, u32)>>,
    t: spec_fn(Seq<u32>) -> Seq<(u32, u32)>,
    b: spec_fn(Seq<(u32, u32)>) -> Seq<u32>,
    g: spec_fn(Calc, u32, u32) -> u32,
) -> ConvolverView
    decreases input.len(),
{
    if input.len() == 0 {
        s
    } else {
        sample_step(convolved(s, input.drop_last(), ir, t, b, g), input.last(), ir, t, b, g)
    }
}

/// Convolves one channel with an impulse response.
pub struct MonoConvolver {
    stream: BlockStream,
    window: Vec<u32>,
    past: Ring<Vec<(u32, u32)>>,
}

fn quiet_spectrum() -> (r: Vec<(u32, u32)>)
    ensures
        r@ == Seq::new(257, |b: int| (0u32, 0u32)),
{
    let mut out: Vec<(u32, u32)> = Vec::new();
    let mut b: usize = 0;
    while b < BINS
        invariant
            b <= BINS,
            out@ == Seq::new(b as nat, |k: int| (0u32, 0u32)),
        decreases BINS - b,
    {
        out.push((0, 0));
        b += 1;
        assert(out@ =~= Seq::new(b as nat, |k: int| (0u32, 0u32)));
    }
    out
}

impl View for MonoConvolver {
    type V = ConvolverView;

    open spec fn view(&self) -> ConvolverView {
        ConvolverView { stream: self.stream(), window: self.window(), past: self.past() }
    }
}

impl MonoConvolver {
    /// The samples that came in and went out.
    pub closed spec fn stream(&self) -> StreamView {
        self.stream@
    }

    /// The last window.
    pub closed spec fn window(&self) -> Seq<u32> {
        self.window@
    }

    /// The transformed windows, the newest first.
    pub closed spec fn past(&self) -> Seq<Seq<(u32, u32)>> {
        spectra_views(self.past.past())
    }

    /// Stream, window and transformed windows are sound.
    pub closed spec fn wf(&self) -> bool {
        &&& self.stream.wf()
        &&& self.window@.len() == CONV_FFT
        &&& self.past.wf()
        &&& prepared(spectra_views(self.past.past()))
    }

    /// Where every sample was answered, no more than a part of a block is held.
    pub proof fn lemma_answered(&self)
        requires
            self.wf(),
            self.stream().emitted == self.stream().inputs.len(),
        ensures
            0 <= self.stream().inputs.len() - self.stream().wet.len() < CONV_BLOCK,
    {
        self.stream.lemma_answered();
    }

    /// A silent convolver that keeps so many windows, and one in any case.
    pub fn new(max_partitions: usize) -> (r: MonoConvolver)
        ensures
            r.wf(),
            r.stream().inputs == Seq::<u32>::empty(),
            r.stream().wet == Seq::<u32>::empty(),
            r.stream().emitted == 0,
            r.window() == Seq::new(512, |i: int| 0u32),
            r.past() == Seq::new(
                (if max_partitions < 1 {
                    1
                } else {
                    max_partitions as int
                }) as nat,
                |k: int| Seq::new(257, |b: int| (0u32, 0u32)),
            ),
    {
        let n: usize = if max_partitions < 1 {
            1
        } else {
            max_partitions
        };
        let mut kept: Vec<Vec<(u32, u32)>> = Vec::new();
        let mut k: usize = 0;
        while k < n
            invariant
                k <= n,
                kept@.len() == k,
                forall|j: int|
                    0 <= j < k ==> (#[trigger] kept@[j])@ == Seq::new(257, |b: int| (0u32, 0u32)),
            decreases n - k,
        {
            kept.push(quiet_spectrum());
            k += 1;
        }
        let r = MonoConvolver {
            stream: BlockStream::new(),
            window: silence(CONV_FFT),
            past: Ring::new(kept),
        };
        assert(r.past() =~= Seq::new(
            n as nat,
            |k: int| Seq::new(257, |b: int| (0u32, 0u32)),
        ));
        r
    }

    /// Takes a sample. Where it fills a block, the result is the window that has to be
    /// transformed.
    pub fn feed(&mut self, x: u32) -> (r: Option<Vec<u32>>)
        requires
            old(self).wf(),
            old(self).stream().emitted == old(self).stream().inputs.len(),
        ensures
            final(self).wf(),
            final(self).past() == old(self).past(),
            final(self).stream() == (StreamView {
                inputs: old(self).stream().inputs.push(x),
                ..old(self).stream()
            }),
            match r {
                Some(window) => {
                    &&& waiting(final(self).stream())
                    &&& window@ == final(self).window()
                    &&& window@ == old(self).window().skip(256) + final(self).stream().inputs.skip(
                        final(self).stream().wet.len() as int,
                    )
                },
                None => !waiting(final(self).stream()) && final(self).window()
                    == old(self).window(),
            },
    {
        match self.stream.feed(x) {
            Some(block) => {
                proof {
                    self.stream.lemma_block(block@);
                }
                self.window = slide(&self.window, &block);
                let window = self.window.clone();
                assert(window@ =~= self.window@);
                Some(window)
            },
            None => None,
        }
    }

    /// Keeps a transformed window and gives the transformed response to it.
    pub fn accumulate<F: Fn(Calc, u32, u32) -> u32>(
        &mut self,
        spectrum: Vec<(u32, u32)>,
        ir: &Vec<Vec<(u32, u32)>>,
        f: &F,
    ) -> (r: Vec<(u32, u32)>)
        requires
            old(self).wf(),
            spectrum@.len() == BINS,
            prepared(spectra_views(ir@)),
            crate::dsp::arith::callable(*f),
        ensures
            final(self).wf(),
            final(self).stream() == old(self).stream(),
            final(self).window() == old(self).window(),
            final(self).past() == crate::dsp::delay::pushed(old(self).past(), spectrum@),
            r@.len() == BINS,
            forall|g: spec_fn(Calc, u32, u32) -> u32| #[trigger]
                crate::dsp::arith::computes(*f, g) ==> r@ == response(
                    final(self).past(),
                    spectra_views(ir@),
                    g,
                ),
    {
        let ghost rings0 = self.past.past();
        let ghost before = spectra_views(rings0);
        let ghost new = spectrum;
        let kept: usize = self.past.len();
        self.past.push(spectrum);
        let ghost past = spectra_views(self.past.past());
        proof {
            assert(past =~= crate::dsp::delay::pushed(before, new@)) by {
                assert forall|k: int| 0 <= k < past.len() implies #[trigger] past[k]
                    == crate::dsp::delay::pushed(before, new@)[k] by {
                    assert(past[k] == self.past.past()[k]@);
                    if k > 0 {
                        assert(before[k - 1] == rings0[k - 1]@);
                    }
                }
            }
            assert forall|k: int| 0 <= k < past.len() implies (#[trigger] past[k]).len()
                == BINS by {
                if k > 0 {
                    assert(past[k] == before[k - 1]);
                }
            }
        }
        let parts: usize = if ir.len() < kept {
            ir.len()
        } else {
            kept
        };
        let ghost irs = spectra_views(ir@);
        let mut out: Vec<(u32, u32)> = Vec::new();
        let mut b: usize = 0;
        while b < BINS
            invariant
                b <= BINS,
                self.past.wf(),
                past == spectra_views(self.past.past()),
                prepared(past),
                irs == spectra_views(ir@),
                prepared(irs),
                parts == used_parts(irs.len(), past.len()),
                out@.len() == b,
                crate::dsp::arith::callable(*f),
                forall|g: spec_fn(Calc, u32, u32) -> u32, i: int|
                    #![trigger crate::dsp::arith::computes(*f, g), out@[i]]
                    crate::dsp::arith::computes(*f, g) && 0 <= i < b ==> out@[i] == response(
                        past,
                        irs,
                        g,
                    )[i],
            decreases BINS - b,
        {
            let mut sum: (u32, u32) = (0, 0);
            let mut k: usize = 0;
            while k < parts
                invariant
                    k <= parts,
                    b < BINS,
                    self.past.wf(),
                    past == spectra_views(self.past.past()),
                    prepared(past),
                    irs == spectra_views(ir@),
                    prepared(irs),
                    parts == used_parts(irs.len(), past.len()),
                    crate::dsp::arith::callable(*f),
                    forall|g: spec_fn(Calc, u32, u32) -> u32| #[trigger]
                        crate::dsp::arith::computes(*f, g) ==> sum == bin_sum(
                            past,
                            irs,
                            b as int,
                            k as nat,
                            g,
                        ),
                decreases parts - k,
            {
                assert(past[k as int] == self.past.past()[k as int]@);
                assert(irs[k as int] == ir@[k as int]@);
                let x: (u32, u32) = self.past.tap(k + 1)[b];
                let h: (u32, u32) = ir[k][b];
                sum = add_product(sum, x, h, f);
                k += 1;
            }
            let value: (u32, u32) = if b == 0 || b == BINS - 1 {
                (sum.0, 0)
            } else {
                sum
            };
            out.push(value);
            b += 1;
        }
        assert forall|g: spec_fn(Calc, u32, u32) -> u32| #[trigger]
            crate::dsp::arith::computes(*f, g) implies out@ == response(past, irs, g) by {
            assert forall|i: int| 0 <= i < 257 implies #[trigger] out@[i] == response(
                past,
                irs,
                g,
            )[i] by {}
            assert(out@ =~= response(past, irs, g));
        }
        out
    }

    /// Takes a response that was transformed back: its second half, scaled, is what the block comes
    /// to.
    pub fn answer<F: Fn(Calc, u32, u32) -> u32>(&mut self, window: &Vec<u32>, f: &F)
        requires
            old(self).wf(),
            waiting(old(self).stream()),
            window@.len() == CONV_FFT,
            crate::dsp::arith::callable(*f),
        ensures
            final(self).wf(),
            final(self).past() == old(self).past(),
            final(self).window() == old(self).window(),
            !waiting(final(self).stream()),
            final(self).stream().inputs == old(self).stream().inputs,
            final(self).stream().emitted == old(self).stream().emitted,
            old(self).stream().wet.is_prefix_of(final(self).stream().wet),
            forall|g: spec_fn(Calc, u32, u32) -> u32| #[trigger]
                crate::dsp::arith::computes(*f, g) ==> final(self).stream().wet == old(
                    self,
                ).stream().wet + window@.skip(256).map_values(|v: u32| g(Calc::Mul, v, SCALE)),
    {
        let mut wet: Vec<u32> = Vec::new();
        let mut i: usize = 0;
        while i < CONV_BLOCK
            invariant
                i <= CONV_BLOCK,
                window@.len() == CONV_FFT,
                wet@.len() == i,
                crate::dsp::arith::callable(*f),
                forall|g: spec_fn(Calc, u32, u32) -> u32, k: int|
                    #![trigger crate::dsp::arith::computes(*f, g), wet@[k]]
                    crate::dsp::arith::computes(*f, g) && 0 <= k < i ==> wet@[k] == g(
                        Calc::Mul,
                        window@[256 + k],
                        SCALE,
                    ),
            decreases CONV_BLOCK - i,
        {
            wet.push(apply(f, Calc::Mul, window[CONV_BLOCK + i], SCALE));
            i += 1;
        }
        self.stream.answer(&wet);
        assert(old(self).stream().wet.is_prefix_of(self.stream().wet));
        assert forall|g: spec_fn(Calc, u32, u32) -> u32| #[trigger]
            crate::dsp::arith::computes(*f, g) implies wet@ == window@.skip(256).map_values(
            |v: u32| g(Calc::Mul, v, SCALE),
        ) by {
            assert(wet@ =~= window@.skip(256).map_values(|v: u32| g(Calc::Mul, v, SCALE)));
        }
    }

    /// The next sample that goes out.
    pub fn next(&mut self) -> (r: u32)
        requires
            old(self).wf(),
            old(self).stream().emitted < old(self).stream().inputs.len(),
            !waiting(old(self).stream()),
        ensures
            final(self).wf(),
            final(self).past() == old(self).past(),
            final(self).window() == old(self).window(),
            final(self).stream() == (StreamView {
                emitted: old(self).stream().emitted + 1,
                ..old(self).stream()
            }),
            r == output_at(old(self).stream().wet, old(self).stream().emitted),
    {
        self.stream.next()
    }

    /// Answers the block whose window this is.
    fn process_block<
        T: Fn(&Vec<u32>) -> Vec<(u32, u32)>,
        B: Fn(&Vec<(u32, u32)>) -> Vec<u32>,
        F: Fn(Calc, u32, u32) -> u32,
    >(&mut self, window: &Vec<u32>, ir: &Vec<Vec<(u32, u32)>>, forward: &T, back: &B, f: &F)
        requires
            old(self).wf(),
            waiting(old(self).stream()),
            window@ == old(self).window(),
            window@.len() == CONV_FFT,
            prepared(spectra_views(ir@)),
            transformable(*forward),
            reversible(*back),
            crate::dsp::arith::callable(*f),
        ensures
            final(self).wf(),
            final(self).window() == old(self).window(),
            !waiting(final(self).stream()),
            final(self).stream().inputs == old(self).stream().inputs,
            final(self).stream().emitted == old(self).stream().emitted,
            old(self).stream().wet.is_prefix_of(final(self).stream().wet),
            forall|
                t: spec_fn(Seq<u32>) -> Seq<(u32, u32)>,
                b: spec_fn(Seq<(u32, u32)>) -> Seq<u32>,
                g: spec_fn(Calc, u32, u32) -> u32,
            | #[trigger]
                transforms(*forward, t) && #[trigger] reverses(*back, b)
                    && #[trigger] crate::dsp::arith::computes(*f, g) ==> {
                    let past = crate::dsp::delay::pushed(old(self).past(), t(window@));
                    &&& final(self).past() == past
                    &&& final(self).stream().wet == old(self).stream().wet + b(
                        response(past, spectra_views(ir@), g),
                    ).skip(256).map_values(|v: u32| g(Calc::Mul, v, SCALE))
                },
    {
        let spectrum: Vec<(u32, u32)> = forward(window);
        let sums: Vec<(u32, u32)> = self.accumulate(spectrum, ir, f);
        let answer: Vec<u32> = back(&sums);
        self.answer(&answer, f);
    }

    /// Takes samples and gives as many, late by a block. Windows are transformed by `forward`, and
    /// back by `back`.
    pub fn process<
        T: Fn(&Vec<u32>) -> Vec<(u32, u32)>,
        B: Fn(&Vec<(u32, u32)>) -> Vec<u32>,
        F: Fn(Calc, u32, u32) -> u32,
    >(
        &mut self,
        input: &Vec<u32>,
        ir: &Vec<Vec<(u32, u32)>>,
        forward: &T,
        back: &B,
        f: &F,
    ) -> (out: Vec<u32>)
        requires
            old(self).wf(),
            old(self).stream().emitted == old(self).stream().inputs.len(),
            prepared(spectra_views(ir@)),
            transformable(*forward),
            reversible(*back),
            crate::dsp::arith::callable(*f),
        ensures
            final(self).wf(),
            final(self).stream().emitted == final(self).stream().inputs.len(),
            out@.len() == input@.len(),
            forall|i: int|
                0 <= i < out@.len() ==> #[trigger] out@[i] == output_at(
                    final(self).stream().wet,
                    old(self).stream().emitted + i,
                ),
            forall|
                t: spec_fn(Seq<u32>) -> Seq<(u32, u32)>,
                b: spec_fn(Seq<(u32, u32)>) -> Seq<u32>,
                g: spec_fn(Calc, u32, u32) -> u32,
            | #[trigger]
                transforms(*forward, t) && #[trigger] reverses(*back, b)
                    && #[trigger] crate::dsp::arith::computes(*f, g) ==> final(self)@ == convolved(
                    old(self)@,
                    input@,
                    spectra_views(ir@),
                    t,
                    b,
                    g,
                ),
    {
        let ghost irs = spectra_views(ir@);
        let ghost first = self@;
        let mut out: Vec<u32> = Vec::new();
        let mut i: usize = 0;
        assert(input@.take(0) =~= Seq::empty());
        while i < input.len()
            invariant
                i <= input@.len(),
                out@.len() == i,
                first == old(self)@,
                self.wf(),
                self.stream().emitted == self.stream().inputs.len(),
                self.stream().emitted == first.stream.emitted + i,
                irs == spectra_views(ir@),
                prepared(irs),
                transformable(*forward),
                reversible(*back),
                crate::dsp::arith::callable(*f),
                forall|k: int|
                    0 <= k < i ==> #[trigger] out@[k] == output_at(
                        self.stream().wet,
                        first.stream.emitted + k,
                    ),
                forall|
                    t: spec_fn(Seq<u32>) -> Seq<(u32, u32)>,
                    b: spec_fn(Seq<(u32, u32)>) -> Seq<u32>,
                    g: spec_fn(Calc, u32, u32) -> u32,
                | #[trigger]
                    transforms(*forward, t) && #[trigger] reverses(*back, b)
                        && #[trigger] crate::dsp::arith::computes(*f, g) ==> self@ == convolved(
                        first,
                        input@.take(i as int),
                        irs,
                        t,
                        b,
                        g,
                    ),
            decreases input@.len() - i,
        {
            let ghost before = self@;
            let x: u32 = input[i];
            if let Some(window) = self.feed(x) {
                self.process_block(&window, ir, forward, back, f);
            }
            let y: u32 = self.next();
            out.push(y);
            proof {
                let wet = self.stream().wet;
                assert(before.stream.wet.is_prefix_of(wet));
                assert forall|k: int| 0 <= k < i + 1 implies #[trigger] out@[k] == output_at(
                    wet,
                    first.stream.emitted + k,
                ) by {
                    let at = first.stream.emitted + k;
                    if k < i && at >= CONV_BLOCK {
                        assert(before.stream.wet[at - CONV_BLOCK] == wet[at - CONV_BLOCK]);
                    }
                }
                assert(input@.take(i + 1).drop_last() =~= input@.take(i as int));
                assert(input@.take(i + 1).last() == x);
            }
            i += 1;
        }
        assert(input@.take(i as int) =~= input@);
        out
    }
}

/// When a block comes, every transformed window becomes one block older.
pub proof fn law_windows_age(past: Seq<Seq<(u32, u32)>>, new: Seq<(u32, u32)>, back: int)
    requires
        0 <= back,
        back + 1 < past.len(),
    ensures
        crate::dsp::delay::pushed(past, new)[back + 1] == past[back],
        crate::dsp::delay::pushed(past, new)[0] == new,
{
}

} // verus!
