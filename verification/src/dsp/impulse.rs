//! The convolver stage: every channel runs through its impulse response, and what comes out is mixed
//! with what went in. The function that transforms windows, and the one that transforms them back,
//! are handed in.

use vstd::prelude::*;
use crate::dsp::arith::{apply, to_unit, Calc};
use crate::dsp::convolver::{ConvolverView, MonoConvolver, StreamView};
use crate::dsp::tuning::gain_factor;
use crate::float_bits::ONE_BITS;
use crate::types::ConvolverState;

verus! {

/// An impulse response: the transformed parts of each of its channels.
pub struct ImpulseResponse {
    pub channels: Vec<Vec<Vec<(u32, u32)>>>,
}

/// The transformed parts of the channels.
pub open spec fn response_parts(s: Seq<Vec<Vec<(u32, u32)>>>) -> Seq<Seq<Seq<(u32, u32)>>> {
    s.map_values(|c: Vec<Vec<(u32, u32)>>| crate::dsp::convolver::spectra_views(c@))
}

impl View for ImpulseResponse {
    type V = Seq<Seq<Seq<(u32, u32)>>>;

    open spec fn view(&self) -> Seq<Seq<Seq<(u32, u32)>>> {
        response_parts(self.channels@)
    }
}

/// Every part of every channel has all bins.
pub open spec fn usable(ir: Seq<Seq<Seq<(u32, u32)>>>) -> bool {
    forall|c: int| 0 <= c < ir.len() ==> crate::dsp::convolver::prepared(#[trigger] ir[c])
}

/// The number of parts of the longest channel, and one in any case.
pub open spec fn most_parts(ir: Seq<Seq<Seq<(u32, u32)>>>) -> nat
    decreases ir.len(),
{
    if ir.len() == 0 {
        1
    } else {
        let before = most_parts(ir.drop_last());
        if before < ir.last().len() {
            ir.last().len()
        } else {
            before
        }
    }
}

/// The stage: whether it is on, how much of the result is heard and how loud it is, the impulse
/// response, and what the channels remember.
pub struct ImpulseView {
    pub enabled: bool,
    pub wet: u32,
    pub gain: u32,
    pub response: Seq<Seq<Seq<(u32, u32)>>>,
    pub lines: Seq<ConvolverView>,
}

/// A channel that remembers nothing.
pub open spec fn line_at_rest(kept: nat) -> ConvolverView {
    ConvolverView {
        stream: StreamView { inputs: Seq::empty(), wet: Seq::empty(), emitted: 0 },
        window: Seq::new(512, |i: int| 0u32),
        past: Seq::new(kept, |k: int| Seq::new(257, |b: int| (0u32, 0u32))),
    }
}

/// The samples of one channel of a block.
pub open spec fn channel_samples(block: Seq<u32>, c: int, channels: int) -> Seq<u32> {
    Seq::new((block.len() as int / channels) as nat, |n: int| block[n * channels + c])
}

/// The response of a channel: its own one, or the last where there are fewer.
pub open spec fn response_for(ir: Seq<Seq<Seq<(u32, u32)>>>, c: int) -> Seq<Seq<(u32, u32)>> {
    if c < ir.len() {
        ir[c]
    } else {
        ir.last()
    }
}

/// A sample mixed with its result.
pub open spec fn mixed(
    x: u32,
    y: u32,
    wet: u32,
    gain: u32,
    g: spec_fn(Calc, u32, u32) -> u32,
) -> u32 {
    g(
        Calc::Add,
        g(Calc::Mul, x, g(Calc::Sub, ONE_BITS, wet)),
        g(Calc::Mul, g(Calc::Mul, y, gain), wet),
    )
}

/// The stage passes blocks of so many channels through.
pub open spec fn passes(v: ImpulseView, channels: int) -> bool {
    !v.enabled || channels == 0 || v.response.len() == 0
}

/// What the channels remember in front of a block; where their number changes they start anew.
pub open spec fn lines_for(v: ImpulseView, channels: int) -> Seq<ConvolverView> {
    if v.lines.len() == channels {
        v.lines
    } else {
        Seq::new(channels as nat, |c: int| line_at_rest(most_parts(v.response)))
    }
}

/// What the channels remember behind a block.
pub open spec fn lines_after(
    v: ImpulseView,
    block: Seq<u32>,
    channels: int,
    t: spec_fn(Seq<u32>) -> Seq<(u32, u32)>,
    b: spec_fn(Seq<(u32, u32)>) -> Seq<u32>,
    g: spec_fn(Calc, u32, u32) -> u32,
) -> Seq<ConvolverView> {
    Seq::new(
        channels as nat,
        |c: int|
            crate::dsp::convolver::convolved(
                lines_for(v, channels)[c],
                channel_samples(block, c, channels),
                response_for(v.response, c),
                t,
                b,
                g,
            ),
    )
}

/// A sample behind the stage; samples behind the last whole frame stay.
pub open spec fn sample_behind(
    v: ImpulseView,
    block: Seq<u32>,
    channels: int,
    after: Seq<ConvolverView>,
    i: int,
    g: spec_fn(Calc, u32, u32) -> u32,
) -> u32 {
    if i < block.len() as int / channels * channels {
        let c = i % channels;
        let y = crate::dsp::convolver::output_at(
            after[c].stream.wet,
            lines_for(v, channels)[c].stream.emitted + i / channels,
        );
        mixed(block[i], y, v.wet, v.gain, g)
    } else {
        block[i]
    }
}

/// The stage and a block behind it.
pub open spec fn impulse_block(
    v: ImpulseView,
    block: Seq<u32>,
    channels: int,
    t: spec_fn(Seq<u32>) -> Seq<(u32, u32)>,
    b: spec_fn(Seq<(u32, u32)>) -> Seq<u32>,
    g: spec_fn(Calc, u32, u32) -> u32,
) -> (ImpulseView, Seq<u32>) {
    if passes(v, channels) {
        (v, block)
    } else {
        let after = lines_after(v, block, channels, t, b, g);
        (
            ImpulseView { lines: after, ..v },
            Seq::new(block.len(), |i: int| sample_behind(v, block, channels, after, i, g)),
        )
    }
}

/// A stage that is off and has no response.
pub open spec fn fresh_stage() -> ImpulseView {
    ImpulseView {
        enabled: false,
        wet: ONE_BITS,
        gain: ONE_BITS,
        response: Seq::empty(),
        lines: Seq::empty(),
    }
}

/// The stage with other settings.
pub open spec fn impulse_set(
    v: ImpulseView,
    params: ConvolverState,
    g: spec_fn(Calc, u32, u32) -> u32,
) -> ImpulseView {
    ImpulseView {
        enabled: params.enabled,
        wet: crate::dsp::arith::unit(params.wet_dry),
        gain: crate::dsp::tuning::factor_of(params.ir_gain_db, g),
        ..v
    }
}

/// The convolver stage.
pub struct ImpulseStage {
    enabled: bool,
    wet: u32,
    gain: u32,
    response: ImpulseResponse,
    lines: Vec<MonoConvolver>,
}

impl View for ImpulseStage {
    type V = ImpulseView;

    closed spec fn view(&self) -> ImpulseView {
        ImpulseView {
            enabled: self.enabled,
            wet: self.wet,
            gain: self.gain,
            response: self.response@,
            lines: self.lines@.map_values(|l: MonoConvolver| l@),
        }
    }
}

/// A channel is sound, and every sample that came in was answered.
pub open spec fn settled(line: MonoConvolver) -> bool {
    line.wf() && line@.stream.emitted == line@.stream.inputs.len()
}

fn fresh_lines(count: usize, kept: usize) -> (r: Vec<MonoConvolver>)
    requires
        kept >= 1,
    ensures
        r@.len() == count,
        forall|c: int|
            0 <= c < count ==> settled(#[trigger] r@[c]) && r@[c]@ == line_at_rest(kept as nat),
{
    let mut out: Vec<MonoConvolver> = Vec::new();
    while out.len() < count
        invariant
            out@.len() <= count,
            kept >= 1,
            forall|c: int|
                0 <= c < out@.len() ==> settled(#[trigger] out@[c]) && out@[c]@ == line_at_rest(
                    kept as nat,
                ),
        decreases count - out@.len(),
    {
        let line = MonoConvolver::new(kept);
        let ghost rest = line_at_rest(kept as nat);
        assert(line@.past =~= rest.past);
        assert(line@.window =~= rest.window);
        assert(line@.stream.inputs =~= rest.stream.inputs);
        assert(line@.stream.wet =~= rest.stream.wet);
        out.push(line);
    }
    out
}

fn count_parts(ir: &ImpulseResponse) -> (r: usize)
    ensures
        r == most_parts(ir@),
        r >= 1,
{
    let mut most: usize = 1;
    let mut c: usize = 0;
    assert(ir@.take(0) =~= Seq::empty());
    while c < ir.channels.len()
        invariant
            c <= ir.channels@.len(),
            most >= 1,
            most == most_parts(ir@.take(c as int)),
        decreases ir.channels@.len() - c,
    {
        assert(ir@.take(c + 1).drop_last() =~= ir@.take(c as int));
        assert(ir@.take(c + 1).last() == ir@[c as int]);
        let n: usize = ir.channels[c].len();
        assert(ir@[c as int].len() == n);
        if most < n {
            most = n;
        }
        c += 1;
    }
    assert(ir@.take(c as int) =~= ir@);
    most
}

fn samples_of(block: &Vec<u32>, c: usize, channels: usize) -> (r: Vec<u32>)
    requires
        c < channels,
    ensures
        r@ == channel_samples(block@, c as int, channels as int),
{
    let len: usize = block.len();
    let frames: usize = len / channels;
    let mut out: Vec<u32> = Vec::new();
    while out.len() < frames
        invariant
            out@.len() <= frames,
            c < channels,
            len == block@.len(),
            frames == len / channels,
            forall|n: int| 0 <= n < out@.len() ==> #[trigger] out@[n] == block@[n * channels + c],
        decreases frames - out@.len(),
    {
        let n: usize = out.len();
        proof {
            crate::dsp::arith::lemma_frame_inside(n as int, len as int, channels as int);
        }
        out.push(block[n * channels + c]);
    }
    assert(out@ =~= channel_samples(block@, c as int, channels as int));
    out
}

fn mix<F: Fn(Calc, u32, u32) -> u32>(x: u32, y: u32, wet: u32, gain: u32, f: &F) -> (r: u32)
    requires
        crate::dsp::arith::callable(*f),
    ensures
        forall|g: spec_fn(Calc, u32, u32) -> u32| #[trigger]
            crate::dsp::arith::computes(*f, g) ==> r == mixed(x, y, wet, gain, g),
{
    let rest: u32 = apply(f, Calc::Sub, ONE_BITS, wet);
    let dry: u32 = apply(f, Calc::Mul, x, rest);
    let loud: u32 = apply(f, Calc::Mul, y, gain);
    let heard: u32 = apply(f, Calc::Mul, loud, wet);
    apply(f, Calc::Add, dry, heard)
}

/// A frame and a channel give a place in a block, and the place gives back both.
pub proof fn lemma_place(n: int, c: int, channels: int)
    requires
        0 <= n,
        0 <= c < channels,
    ensures
        (n * channels + c) / channels == n,
        (n * channels + c) % channels == c,
{
    vstd::arithmetic::div_mod::lemma_fundamental_div_mod_converse(n * channels + c, channels, n, c);
}

/// A place inside the whole frames stands in one of them.
pub proof fn lemma_frame_of(i: int, frames: int, channels: int)
    requires
        0 <= i < frames * channels,
        channels > 0,
    ensures
        0 <= i / channels < frames,
        0 <= i % channels < channels,
        i == i / channels * channels + i % channels,
{
    vstd::arithmetic::div_mod::lemma_fundamental_div_mod(i, channels);
    assert(i / channels * channels == channels * (i / channels)) by (nonlinear_arith);
    assert(i / channels < frames) by (nonlinear_arith)
        requires
            i / channels * channels <= i,
            i < frames * channels,
            channels > 0,
    ;
    assert(0 <= i / channels) by (nonlinear_arith)
        requires
            0 <= i,
            channels > 0,
    ;
}

/// The whole frames of a block lie inside it.
proof fn lemma_whole(len: int, channels: int)
    requires
        0 <= len,
        0 < channels,
    ensures
        0 <= len / channels * channels <= len,
{
    vstd::arithmetic::div_mod::lemma_fundamental_div_mod(len, channels);
    assert(0 <= len / channels * channels <= len) by (nonlinear_arith)
        requires
            0 <= len,
            0 < channels,
            len == channels * (len / channels) + len % channels,
            0 <= len % channels,
    ;
}

/// Puts the result of a channel into a block.
fn put_channel<F: Fn(Calc, u32, u32) -> u32>(
    block: &mut Vec<u32>,
    c: usize,
    channels: usize,
    results: &Vec<u32>,
    wet: u32,
    gain: u32,
    f: &F,
)
    requires
        c < channels,
        results@.len() == old(block)@.len() as int / channels as int,
        crate::dsp::arith::callable(*f),
    ensures
        final(block)@.len() == old(block)@.len(),
        forall|i: int|
            0 <= i < final(block)@.len() && !(i % channels as int == c && i < old(block)@.len()
                as int / channels as int * channels) ==> #[trigger] final(block)@[i]
                == old(block)@[i],
        forall|g: spec_fn(Calc, u32, u32) -> u32, i: int|
            #![trigger crate::dsp::arith::computes(*f, g), final(block)@[i]]
            crate::dsp::arith::computes(*f, g) && 0 <= i < old(block)@.len() as int
                / channels as int * channels && i % channels as int == c ==> final(block)@[i]
                == mixed(old(block)@[i], results@[i / channels as int], wet, gain, g),
{
    let len: usize = block.len();
    let frames: usize = len / channels;
    let ghost before = block@;
    let mut n: usize = 0;
    while n < frames
        invariant
            n <= frames,
            c < channels,
            len == block@.len() == before.len(),
            frames == len / channels,
            results@.len() == frames,
            crate::dsp::arith::callable(*f),
            forall|i: int|
                0 <= i < len && !(i % channels as int == c && (i / channels as int) < n)
                    ==> #[trigger] block@[i] == before[i],
            forall|g: spec_fn(Calc, u32, u32) -> u32, i: int|
                #![trigger crate::dsp::arith::computes(*f, g), block@[i]]
                crate::dsp::arith::computes(*f, g) && 0 <= i < len && i % channels as int == c && (i
                    / channels as int) < n ==> block@[i] == mixed(
                    before[i],
                    results@[i / channels as int],
                    wet,
                    gain,
                    g,
                ),
        decreases frames - n,
    {
        proof {
            crate::dsp::arith::lemma_frame_inside(n as int, len as int, channels as int);
            lemma_place(n as int, c as int, channels as int);
        }
        let at: usize = n * channels + c;
        let ghost was = block@;
        assert(block@[at as int] == before[at as int]);
        let v: u32 = mix(block[at], results[n], wet, gain, f);
        block.set(at, v);
        proof {
            assert forall|i: int|
                #![trigger block@[i]]
                0 <= i < len && i % channels as int == c && i / channels as int == n implies i
                == at by {
                vstd::arithmetic::div_mod::lemma_fundamental_div_mod(i, channels as int);
                assert(channels * (i / channels as int) == n * channels) by (nonlinear_arith)
                    requires
                        i / channels as int == n,
                ;
            }
        }
        n += 1;
    }
    proof {
        lemma_whole(len as int, channels as int);
        assert forall|i: int|
            #![trigger block@[i]]
            0 <= i < len implies (i / (channels as int) < frames) == (i < frames * channels) by {
            let ch = channels as int;
            vstd::arithmetic::div_mod::lemma_fundamental_div_mod(i, ch);
            if i < frames * channels {
                lemma_frame_of(i, frames as int, ch);
            } else {
                assert(i / ch >= frames) by (nonlinear_arith)
                    requires
                        i >= frames * ch,
                        i == ch * (i / ch) + i % ch,
                        0 <= i % ch < ch,
                ;
            }
        }
    }
}

impl ImpulseStage {
    /// The response has all bins, and the channels are settled.
    pub closed spec fn wf(&self) -> bool {
        &&& usable(self.response@)
        &&& forall|c: int| 0 <= c < self.lines@.len() ==> settled(#[trigger] self.lines@[c])
    }

    /// Every sample that came in was answered, and no more than a part of a block is held.
    pub proof fn lemma_answered(&self)
        requires
            self.wf(),
        ensures
            forall|c: int|
                0 <= c < self@.lines.len() ==> {
                    let stream = (#[trigger] self@.lines[c]).stream;
                    &&& stream.emitted == stream.inputs.len()
                    &&& 0 <= stream.inputs.len() - stream.wet.len() < 256
                },
    {
        assert forall|c: int| 0 <= c < self@.lines.len() implies {
            let stream = (#[trigger] self@.lines[c]).stream;
            &&& stream.emitted == stream.inputs.len()
            &&& 0 <= stream.inputs.len() - stream.wet.len() < 256
        } by {
            assert(settled(self.lines@[c]));
            self.lines@[c].lemma_answered();
        }
    }

    /// A stage that is off and has no response.
    pub fn new() -> (r: ImpulseStage)
        ensures
            r.wf(),
            r@ == fresh_stage(),
    {
        let r = ImpulseStage {
            enabled: false,
            wet: ONE_BITS,
            gain: ONE_BITS,
            response: ImpulseResponse { channels: Vec::new() },
            lines: Vec::new(),
        };
        assert(r@.response =~= Seq::empty());
        assert(r@.lines =~= Seq::empty());
        r
    }

    /// Forgets what the channels remember.
    pub fn prepare(&mut self)
        requires
            old(self).wf(),
        ensures
            final(self).wf(),
            final(self)@ == (ImpulseView { lines: Seq::empty(), ..old(self)@ }),
    {
        self.lines = Vec::new();
        assert(self@.lines =~= Seq::empty());
    }

    /// Takes another response, and starts anew with it.
    pub fn set_response(&mut self, response: ImpulseResponse)
        requires
            usable(response@),
        ensures
            final(self).wf(),
            final(self)@ == (ImpulseView {
                response: response@,
                lines: Seq::empty(),
                ..old(self)@
            }),
    {
        self.response = response;
        self.lines = Vec::new();
        assert(self@.lines =~= Seq::empty());
    }

    /// Takes settings.
    pub fn set_params<F: Fn(Calc, u32, u32) -> u32>(&mut self, params: &ConvolverState, f: &F)
        requires
            old(self).wf(),
            crate::dsp::arith::callable(*f),
        ensures
            final(self).wf(),
            forall|g: spec_fn(Calc, u32, u32) -> u32| #[trigger]
                crate::dsp::arith::computes(*f, g) ==> final(self)@ == impulse_set(
                    old(self)@,
                    *params,
                    g,
                ),
    {
        self.enabled = params.enabled;
        self.wet = to_unit(params.wet_dry);
        self.gain = gain_factor(params.ir_gain_db, f);
    }

    /// Runs a block through the stage in place.
    pub fn process<
        T: Fn(&Vec<u32>) -> Vec<(u32, u32)>,
        B: Fn(&Vec<(u32, u32)>) -> Vec<u32>,
        F: Fn(Calc, u32, u32) -> u32,
    >(&mut self, buffer: &mut Vec<u32>, channels: usize, forward: &T, back: &B, f: &F)
        requires
            old(self).wf(),
            crate::dsp::convolver::transformable(*forward),
            crate::dsp::convolver::reversible(*back),
            crate::dsp::arith::callable(*f),
        ensures
            final(self).wf(),
            final(buffer)@.len() == old(buffer)@.len(),
            forall|
                t: spec_fn(Seq<u32>) -> Seq<(u32, u32)>,
                b: spec_fn(Seq<(u32, u32)>) -> Seq<u32>,
                g: spec_fn(Calc, u32, u32) -> u32,
            | #[trigger]
                crate::dsp::convolver::transforms(*forward, t)
                    && #[trigger] crate::dsp::convolver::reverses(*back, b)
                    && #[trigger] crate::dsp::arith::computes(*f, g) ==> impulse_block(
                    old(self)@,
                    old(buffer)@,
                    channels as int,
                    t,
                    b,
                    g,
                ) == (final(self)@, final(buffer)@),
    {
        let ghost start = self@;
        let ghost block = buffer@;
        if !self.enabled || channels == 0 || self.response.channels.len() == 0 {
            return;
        }
        if self.lines.len() != channels {
            let kept: usize = count_parts(&self.response);
            self.lines = fresh_lines(channels, kept);
        }
        let ghost first = self@.lines;
        assert(first =~= lines_for(start, channels as int));
        let mut c: usize = 0;
        while c < channels
            invariant
                c <= channels,
                channels > 0,
                self.lines@.len() == channels,
                usable(self.response@),
                self.response@.len() > 0,
                self.response@ == start.response,
                self.wet == start.wet,
                self.gain == start.gain,
                self.enabled == start.enabled,
                first == lines_for(start, channels as int),
                first.len() == channels,
                buffer@.len() == block.len(),
                crate::dsp::convolver::transformable(*forward),
                crate::dsp::convolver::reversible(*back),
                crate::dsp::arith::callable(*f),
                forall|k: int| 0 <= k < channels ==> settled(#[trigger] self.lines@[k]),
                forall|k: int| c <= k < channels ==> (#[trigger] self.lines@[k])@ == first[k],
                forall|i: int|
                    0 <= i < block.len() && (i >= block.len() as int / channels as int * channels
                        || i % channels as int >= c) ==> #[trigger] buffer@[i] == block[i],
                forall|
                    t: spec_fn(Seq<u32>) -> Seq<(u32, u32)>,
                    b: spec_fn(Seq<(u32, u32)>) -> Seq<u32>,
                    g: spec_fn(Calc, u32, u32) -> u32,
                    k: int,
                |
                    #![trigger crate::dsp::convolver::transforms(*forward, t), crate::dsp::convolver::reverses(*back, b), crate::dsp::arith::computes(*f, g), self.lines@[k]]
                    crate::dsp::convolver::transforms(*forward, t)
                        && crate::dsp::convolver::reverses(*back, b)
                        && crate::dsp::arith::computes(*f, g) && 0 <= k < c ==> self.lines@[k]@
                        == lines_after(start, block, channels as int, t, b, g)[k],
                forall|
                    t: spec_fn(Seq<u32>) -> Seq<(u32, u32)>,
                    b: spec_fn(Seq<(u32, u32)>) -> Seq<u32>,
                    g: spec_fn(Calc, u32, u32) -> u32,
                    i: int,
                |
                    #![trigger crate::dsp::convolver::transforms(*forward, t), crate::dsp::convolver::reverses(*back, b), crate::dsp::arith::computes(*f, g), buffer@[i]]
                    crate::dsp::convolver::transforms(*forward, t)
                        && crate::dsp::convolver::reverses(*back, b)
                        && crate::dsp::arith::computes(*f, g) && 0 <= i < block.len() as int
                        / channels as int * channels && (i % channels as int) < c ==> buffer@[i]
                        == sample_behind(
                        start,
                        block,
                        channels as int,
                        lines_after(start, block, channels as int, t, b, g),
                        i,
                        g,
                    ),
            decreases channels - c,
        {
            let input: Vec<u32> = samples_of(buffer, c, channels);
            let ghost ch = channels as int;
            let ghost frames = block.len() as int / ch;
            proof {
                assert forall|n: int| 0 <= n < frames implies #[trigger] input@[n]
                    == channel_samples(block, c as int, ch)[n] by {
                    crate::dsp::arith::lemma_frame_inside(n, block.len() as int, ch);
                    lemma_place(n, c as int, ch);
                    assert(buffer@[n * ch + c] == block[n * ch + c]);
                }
                assert(input@ =~= channel_samples(block, c as int, ch));
            }
            let count: usize = self.response.channels.len();
            let from: usize = if c < count {
                c
            } else {
                count - 1
            };
            let parts: &Vec<Vec<(u32, u32)>> = &self.response.channels[from];
            proof {
                assert(self.response@[from as int] == crate::dsp::convolver::spectra_views(parts@));
                assert(response_for(start.response, c as int) == self.response@[from as int]);
            }
            let ghost lines0 = self.lines@;
            let ghost was = buffer@;
            let results: Vec<u32> = self.lines[c].process(&input, parts, forward, back, f);
            put_channel(buffer, c, channels, &results, self.wet, self.gain, f);
            proof {
                lemma_whole(block.len() as int, ch);
                assert forall|k: int| 0 <= k < channels && k != c implies #[trigger] self.lines@[k]
                    == lines0[k] by {}
                assert forall|
                    t: spec_fn(Seq<u32>) -> Seq<(u32, u32)>,
                    b: spec_fn(Seq<(u32, u32)>) -> Seq<u32>,
                    g: spec_fn(Calc, u32, u32) -> u32,
                    i: int,
                |
                    #![trigger crate::dsp::convolver::transforms(*forward, t), crate::dsp::convolver::reverses(*back, b), crate::dsp::arith::computes(*f, g), buffer@[i]]
                    crate::dsp::convolver::transforms(*forward, t)
                        && crate::dsp::convolver::reverses(*back, b)
                        && crate::dsp::arith::computes(*f, g) && 0 <= i < frames * channels && i
                        % ch < c + 1 implies buffer@[i] == sample_behind(
                    start,
                    block,
                    ch,
                    lines_after(start, block, ch, t, b, g),
                    i,
                    g,
                ) by {
                    let after = lines_after(start, block, ch, t, b, g);
                    if i % ch == c {
                        lemma_frame_of(i, frames, ch);
                        assert(was[i] == block[i]);
                        assert(self.lines@[c as int]@ == after[c as int]);
                        assert(results@[i / ch] == crate::dsp::convolver::output_at(
                            after[c as int].stream.wet,
                            first[c as int].stream.emitted + i / ch,
                        ));
                    } else {
                        assert(buffer@[i] == was[i]);
                    }
                }
            }
            c += 1;
        }
        proof {
            assert forall|
                t: spec_fn(Seq<u32>) -> Seq<(u32, u32)>,
                b: spec_fn(Seq<(u32, u32)>) -> Seq<u32>,
                g: spec_fn(Calc, u32, u32) -> u32,
            | #[trigger]
                crate::dsp::convolver::transforms(*forward, t)
                    && #[trigger] crate::dsp::convolver::reverses(*back, b)
                    && #[trigger] crate::dsp::arith::computes(*f, g) implies impulse_block(
                start,
                block,
                channels as int,
                t,
                b,
                g,
            ) == (self@, buffer@) by {
                let ch = channels as int;
                let after = lines_after(start, block, ch, t, b, g);
                let (want, out) = impulse_block(start, block, ch, t, b, g);
                assert forall|k: int| 0 <= k < ch implies #[trigger] self@.lines[k] == after[k] by {
                    assert(self.lines@[k]@ == after[k]);
                }
                assert(self@.lines =~= after);
                assert forall|i: int| 0 <= i < block.len() implies #[trigger] buffer@[i]
                    == out[i] by {
                    let whole = block.len() as int / ch * ch;
                    if i < whole {
                        lemma_frame_of(i, block.len() as int / ch, ch);
                    }
                }
                assert(buffer@ =~= out);
            }
        }
    }
}

} // verus!
