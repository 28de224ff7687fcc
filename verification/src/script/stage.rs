//! The script stage of the audio chain: what happens to registers and samples around each run.

use vstd::prelude::*;
use crate::script::compiler::Program;
use crate::script::vm::{run_init, run_sample, Machine, Request};
use crate::dsp::arith::{flush, limit, LIMIT_BITS};

verus! {

/// Instructions that all frames of one audio block share.
pub const BLOCK_BUDGET: u32 = 2_000_000;

/// Instructions that `@init` may take.
pub const INIT_BUDGET: u32 = 1_000_000;

/// The registers a program starts with: zero, but for the sample rate.
pub fn fresh_registers(prog: &Program, sample_rate: u32) -> (r: Vec<u32>)
    ensures
        r@ == crate::script::vm::register_set(
            Seq::new(prog.num_regs as nat, |i: int| 0u32),
            prog.srate_reg as int,
            sample_rate,
        ),
{
    let mut regs: Vec<u32> = Vec::new();
    let mut i: usize = 0;
    while i < prog.num_regs
        invariant
            i <= prog.num_regs,
            regs@ == Seq::new(i as nat, |i: int| 0u32),
        decreases prog.num_regs - i,
    {
        regs.push(0);
        i += 1;
        assert(regs@ =~= Seq::new(i as nat, |i: int| 0u32));
    }
    set_sample_rate(prog, &mut regs, sample_rate);
    regs
}

/// Tells a loaded program a new sample rate.
pub fn set_sample_rate(prog: &Program, regs: &mut Vec<u32>, sample_rate: u32)
    ensures
        final(regs)@ == crate::script::vm::register_set(
            old(regs)@,
            prog.srate_reg as int,
            sample_rate,
        ),
{
    let at: usize = prog.srate_reg as usize;
    if at < regs.len() {
        regs[at] = sample_rate;
    }
}

/// A sample as the stage lets it out: tiny ones become zero, and large ones are cut to the limit.
pub open spec fn bounded(v: u32) -> u32 {
    crate::dsp::arith::limited(crate::dsp::arith::flushed(v))
}

/// Bounds a sample.
pub fn bound_sample(v: u32) -> (r: u32)
    ensures
        r == bounded(v),
{
    limit(flush(v))
}

/// What the stage lets out of a finished frame lies within the limit.
pub proof fn law_output_is_bounded(v: u32)
    ensures
        crate::float_bits::magnitude(bounded(crate::float_bits::finite_or_zero(v))) <= LIMIT_BITS,
        crate::float_bits::finite(bounded(crate::float_bits::finite_or_zero(v))),
{
}

/// How many frames a buffer holds: with no channels, none.
pub fn frame_count(len: usize, channels: usize) -> (r: usize)
    ensures
        channels == 0 ==> r == 0,
        channels > 0 ==> r == len / channels,
{
    if channels == 0 {
        0
    } else {
        len / channels
    }
}

/// The left and right sample of a frame; with one channel both are the same.
pub fn frame_in(buffer: &Vec<u32>, channels: usize, f: usize) -> (r: (u32, u32))
    requires
        channels > 0,
        f < buffer@.len() / (channels as nat),
    ensures
        r.0 == buffer@[f * channels],
        r.1 == (if channels >= 2 {
            buffer@[f * channels + 1]
        } else {
            buffer@[f * channels]
        }),
{
    proof {
        crate::dsp::arith::lemma_frame_inside(f as int, buffer@.len() as int, channels as int);
    }
    let n: usize = buffer.len();
    assert(f * channels + channels <= n);
    let at: usize = f * channels;
    let l: u32 = buffer[at];
    let r: u32 = if channels >= 2 {
        buffer[at + 1]
    } else {
        l
    };
    (l, r)
}

/// A buffer with a processed frame in it.
pub open spec fn frame_written(
    buffer: Seq<u32>,
    channels: int,
    f: int,
    left: u32,
    right: u32,
) -> Seq<u32> {
    if channels >= 2 {
        buffer.update(f * channels, bounded(left)).update(f * channels + 1, bounded(right))
    } else {
        buffer.update(f * channels, bounded(left))
    }
}

/// Writes a processed frame back, bounded; with one channel only the left sample is written, and
/// channels behind the second are left alone.
pub fn frame_out(buffer: &mut Vec<u32>, channels: usize, f: usize, left: u32, right: u32)
    requires
        channels > 0,
        f < old(buffer)@.len() / (channels as nat),
    ensures
        final(buffer)@ == frame_written(old(buffer)@, channels as int, f as int, left, right),
        final(buffer)@.len() == old(buffer)@.len(),
{
    proof {
        crate::dsp::arith::lemma_frame_inside(f as int, buffer@.len() as int, channels as int);
    }
    let n: usize = buffer.len();
    assert(f * channels + channels <= n);
    let at: usize = f * channels;
    buffer[at] = bound_sample(left);
    if channels >= 2 {
        buffer[at + 1] = bound_sample(right);
    }
}

/// What frames of a block lead to.
pub struct BlockRun {
    pub regs: Seq<u32>,
    pub buffer: Seq<u32>,
    pub budget: u32,
}

/// The first `frames` frames of a buffer, one after another at the cost of one budget. With
/// nothing left of it a frame passes unchanged.
pub open spec fn block_run(
    prog: Program,
    regs: Seq<u32>,
    buffer: Seq<u32>,
    channels: int,
    frames: nat,
    g: spec_fn(Request, u32, u32) -> u32,
) -> BlockRun
    decreases frames,
{
    if frames == 0 {
        BlockRun { regs, buffer, budget: BLOCK_BUDGET }
    } else {
        let b = block_run(prog, regs, buffer, channels, (frames - 1) as nat, g);
        let at = (frames - 1) * channels;
        if b.budget == 0 {
            b
        } else {
            let l = b.buffer[at];
            let r = if channels >= 2 {
                b.buffer[at + 1]
            } else {
                l
            };
            let run = crate::script::vm::frame_run(prog, b.regs, l, r, b.budget, g);
            BlockRun {
                regs: run.regs,
                buffer: frame_written(b.buffer, channels, frames - 1, run.left, run.right),
                budget: run.budget,
            }
        }
    }
}

/// The state of the stage.
pub struct StageView {
    pub regs: Seq<u32>,
    pub sample_rate: u32,
    pub enabled: bool,
    /// The register of the sample rate in the program that was run last.
    pub rate_reg: Option<int>,
}

/// The registers with which a program meets a block: a program that was not run before starts
/// with fresh ones and runs `@init`.
pub open spec fn block_registers(
    s: StageView,
    prog: Program,
    changed: bool,
    g: spec_fn(Request, u32, u32) -> u32,
) -> Seq<u32> {
    if changed || s.rate_reg is None {
        let fresh = crate::script::vm::register_set(
            Seq::new(prog.num_regs as nat, |i: int| 0u32),
            prog.srate_reg as int,
            s.sample_rate,
        );
        crate::script::vm::run(
            prog@.init,
            crate::script::vm::start(fresh, INIT_BUDGET),
            g,
        ).1.regs
    } else {
        s.regs
    }
}

/// The stage that runs a script on every frame.
pub struct ScriptProcessor {
    regs: Vec<u32>,
    machine: Machine,
    sample_rate: u32,
    enabled: bool,
    rate_reg: Option<u16>,
}

impl View for ScriptProcessor {
    type V = StageView;

    closed spec fn view(&self) -> StageView {
        StageView {
            regs: self.regs@,
            sample_rate: self.sample_rate,
            enabled: self.enabled,
            rate_reg: match self.rate_reg {
                Some(r) => Some(r as int),
                None => None,
            },
        }
    }
}

impl ScriptProcessor {
    /// A stage that is switched off and has run no program.
    pub fn new(sample_rate: u32) -> (r: ScriptProcessor)
        ensures
            r@ == (StageView {
                regs: Seq::empty(),
                sample_rate,
                enabled: false,
                rate_reg: None,
            }),
    {
        ScriptProcessor {
            regs: Vec::new(),
            machine: Machine::new(0),
            sample_rate,
            enabled: false,
            rate_reg: None,
        }
    }

    /// Takes a new sample rate, and tells it to the program that was run last.
    pub fn prepare(&mut self, sample_rate: u32)
        ensures
            final(self)@ == (StageView {
                sample_rate,
                regs: match old(self)@.rate_reg {
                    Some(r) => crate::script::vm::register_set(old(self)@.regs, r, sample_rate),
                    None => old(self)@.regs,
                },
                ..old(self)@
            }),
    {
        self.sample_rate = sample_rate;
        if let Some(r) = self.rate_reg {
            let at: usize = r as usize;
            if at < self.regs.len() {
                self.regs[at] = sample_rate;
            }
        }
    }

    /// Switches the stage on or off.
    pub fn set_params(&mut self, enabled: bool)
        ensures
            final(self)@ == (StageView { enabled, ..old(self)@ }),
    {
        self.enabled = enabled;
    }

    /// Runs a program on every frame of a buffer; `changed` says that it is not the one that was
    /// run last. A stage that is off or has no program leaves the buffer alone. The arithmetic of
    /// `@init` is done by `first`, that of `@sample` by `f`.
    pub fn process<F: Fn(Request, u32, u32) -> u32, G: Fn(Request, u32, u32) -> u32>(
        &mut self,
        prog: Option<&Program>,
        changed: bool,
        buffer: &mut Vec<u32>,
        channels: usize,
        first: &G,
        f: &F,
    )
        requires
            forall|what: Request, a: u32, b: u32| #[trigger] call_requires(*first, (what, a, b)),
            forall|what: Request, a: u32, b: u32| #[trigger] call_requires(*f, (what, a, b)),
        ensures
            final(buffer)@.len() == old(buffer)@.len(),
            final(self)@.sample_rate == old(self)@.sample_rate,
            final(self)@.enabled == old(self)@.enabled,
            match prog {
                Some(p) if old(self)@.enabled && channels > 0 && old(buffer)@.len() > 0 => {
                    &&& final(self)@.rate_reg == (if changed || old(self)@.rate_reg is None {
                        Some(p.srate_reg as int)
                    } else {
                        old(self)@.rate_reg
                    })
                    &&& forall|
                        h: spec_fn(Request, u32, u32) -> u32,
                        g: spec_fn(Request, u32, u32) -> u32,
                    |
                        #[trigger] crate::script::vm::computes(*first, h)
                            && #[trigger] crate::script::vm::computes(*f, g) ==> {
                            let b = block_run(
                                *p,
                                block_registers(old(self)@, *p, changed, h),
                                old(buffer)@,
                                channels as int,
                                old(buffer)@.len() / (channels as nat),
                                g,
                            );
                            final(buffer)@ == b.buffer && final(self)@.regs == b.regs
                        }
                },
                _ => final(buffer)@ == old(buffer)@ && final(self)@ == old(self)@,
            },
    {
        let p = match prog {
            Some(p) => p,
            None => {
                return;
            },
        };
        if !self.enabled || channels == 0 || buffer.len() == 0 {
            return;
        }
        if changed || self.rate_reg.is_none() {
            self.regs = fresh_registers(p, self.sample_rate);
            run_init(p, &mut self.machine, &mut self.regs, INIT_BUDGET, first);
            self.rate_reg = Some(p.srate_reg);
        }
        let ghost regs0 = self.regs@;
        let ghost stage = self@;
        assert forall|h: spec_fn(Request, u32, u32) -> u32| #[trigger]
            crate::script::vm::computes(*first, h) implies block_registers(
            old(self)@,
            *p,
            changed,
            h,
        ) == regs0 by {}
        let frames: usize = frame_count(buffer.len(), channels);
        let mut budget: u32 = BLOCK_BUDGET;
        let mut i: usize = 0;
        while i < frames
            invariant
                i <= frames,
                channels > 0,
                frames == buffer@.len() / (channels as nat),
                buffer@.len() == old(buffer)@.len(),
                forall|what: Request, a: u32, b: u32| #[trigger] call_requires(*f, (what, a, b)),
                self@ == (StageView { regs: self@.regs, ..stage }),
                forall|g: spec_fn(Request, u32, u32) -> u32| #[trigger]
                    crate::script::vm::computes(*f, g) ==> block_run(
                        *p,
                        regs0,
                        old(buffer)@,
                        channels as int,
                        i as nat,
                        g,
                    ) == (BlockRun { regs: self.regs@, buffer: buffer@, budget }),
            decreases frames - i,
        {
            if budget > 0 {
                let (l, r): (u32, u32) = frame_in(buffer, channels, i);
                let out: (u32, u32) = run_sample(
                    p,
                    &mut self.machine,
                    &mut self.regs,
                    (l, r),
                    &mut budget,
                    f,
                );
                frame_out(buffer, channels, i, out.0, out.1);
            }
            i += 1;
        }
    }
}

/// Where the budget is spent, the rest of a block passes unchanged.
pub proof fn law_a_spent_budget_passes_the_rest(
    prog: Program,
    regs: Seq<u32>,
    buffer: Seq<u32>,
    channels: int,
    frames: nat,
    more: nat,
    g: spec_fn(Request, u32, u32) -> u32,
)
    requires
        block_run(prog, regs, buffer, channels, frames, g).budget == 0,
    ensures
        block_run(prog, regs, buffer, channels, frames + more, g) == block_run(
            prog,
            regs,
            buffer,
            channels,
            frames,
            g,
        ),
    decreases more,
{
    if more > 0 {
        law_a_spent_budget_passes_the_rest(
            prog,
            regs,
            buffer,
            channels,
            frames,
            (more - 1) as nat,
            g,
        );
    }
}

/// A block keeps its length, and what the stage writes into it lies within the limit.
pub proof fn law_a_block_stays_bounded(
    prog: Program,
    regs: Seq<u32>,
    buffer: Seq<u32>,
    channels: int,
    frames: nat,
    i: int,
    g: spec_fn(Request, u32, u32) -> u32,
)
    requires
        channels > 0,
        frames <= buffer.len() / (channels as nat),
        0 <= i < buffer.len(),
        forall|k: int|
            0 <= k < buffer.len() ==> crate::float_bits::finite(#[trigger] buffer[k]),
    ensures
        ({
            let out = block_run(prog, regs, buffer, channels, frames, g).buffer;
            &&& out.len() == buffer.len()
            &&& out[i] == buffer[i] || crate::float_bits::magnitude(out[i]) <= LIMIT_BITS
        }),
    decreases frames,
{
    if frames > 0 {
        let n = (frames - 1) as nat;
        law_a_block_stays_bounded(prog, regs, buffer, channels, n, i, g);
        let b = block_run(prog, regs, buffer, channels, n, g);
        if b.budget != 0 {
            let at = n * channels;
            crate::dsp::arith::lemma_frame_inside(n as int, buffer.len() as int, channels);
            law_a_block_stays_bounded(prog, regs, buffer, channels, n, at, g);
            if channels >= 2 {
                law_a_block_stays_bounded(prog, regs, buffer, channels, n, at + 1, g);
            }
            let l = b.buffer[at];
            let r = if channels >= 2 {
                b.buffer[at + 1]
            } else {
                l
            };
            let run = crate::script::vm::frame_run(prog, b.regs, l, r, b.budget, g);
            let out = frame_written(b.buffer, channels, n as int, run.left, run.right);
            assert(out[i] == b.buffer[i] || out[i] == bounded(run.left) || out[i] == bounded(
                run.right,
            ));
        }
    }
}

} // verus!
