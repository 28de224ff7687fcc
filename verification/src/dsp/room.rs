//! Rooms: damped combs side by side, whose sum goes through diffusers one behind the other.

use vstd::prelude::*;
use crate::dsp::arith::{apply, flush, limit, to_unit, Calc, HALF_BITS};
use crate::dsp::delay::{CombLine, PreDelay};
use crate::float_bits::{negate, not_above, ONE_BITS};

verus! {

/// The bits of 0.015: how much of the signal enters a room.
pub const ROOM_INPUT: u32 = 0x3c75_c28f;

/// The bits of 0.025: how much of a signal enters the reverb of the surround field.
pub const REVERB_INPUT: u32 = 0x3ccc_cccd;

/// The state of a comb.
pub struct CombView {
    /// What was fed in, the newest first.
    pub past: Seq<u32>,
    pub delay: int,
    /// The damped signal that is fed back.
    pub store: u32,
    pub feedback: u32,
    /// How much the damping keeps and how much it takes in.
    pub damp: u32,
    pub rest: u32,
    /// Whether values that are almost zero become zero.
    pub flushes: bool,
}

/// A value that becomes zero where it is almost zero, if that is wanted.
pub open spec fn settled(flushes: bool, v: u32) -> u32 {
    if flushes {
        crate::dsp::arith::flushed(v)
    } else {
        v
    }
}

fn settle(flushes: bool, v: u32) -> (r: u32)
    ensures
        r == settled(flushes, v),
{
    if flushes {
        flush(v)
    } else {
        v
    }
}

/// What comes out of a comb.
pub open spec fn comb_out(c: CombView) -> u32 {
    c.past[c.delay - 1]
}

/// A comb behind a sample.
pub open spec fn comb_next(c: CombView, x: u32, g: spec_fn(Calc, u32, u32) -> u32) -> CombView {
    let store = settled(
        c.flushes,
        g(
            Calc::Add,
            g(Calc::Mul, comb_out(c), c.rest),
            g(Calc::Mul, c.store, c.damp),
        ),
    );
    CombView {
        past: crate::dsp::delay::pushed(
            c.past,
            g(Calc::Add, x, g(Calc::Mul, store, c.feedback)),
        ),
        store,
        ..c
    }
}

/// A comb.
pub struct Comb {
    line: CombLine,
    store: u32,
    feedback: u32,
    damp: u32,
    rest: u32,
    flushes: bool,
}

impl View for Comb {
    type V = CombView;

    closed spec fn view(&self) -> CombView {
        CombView {
            past: self.line.past(),
            delay: self.line.delay(),
            store: self.store,
            feedback: self.feedback,
            damp: self.damp,
            rest: self.rest,
            flushes: self.flushes,
        }
    }
}

impl Comb {
    /// The line is sound.
    pub closed spec fn wf(&self) -> bool {
        self.line.wf()
    }

    /// A silent comb.
    pub fn new(cap: usize, delay: usize, feedback: u32, damp: u32, rest: u32, flushes: bool) -> (r:
        Comb)
        ensures
            r.wf(),
            r@ == (CombView {
                past: Seq::new(
                    (if cap < 1 {
                        1
                    } else {
                        cap as int
                    }) as nat,
                    |i: int| 0u32,
                ),
                delay: crate::dsp::delay::settable(
                    delay as int,
                    (if cap < 1 {
                        1
                    } else {
                        cap as int
                    }) as nat,
                ),
                store: 0,
                feedback,
                damp,
                rest,
                flushes,
            }),
    {
        Comb { line: CombLine::new(cap, delay), store: 0, feedback, damp, rest, flushes }
    }

    /// Sets the delay, the feedback and the damping while the comb runs.
    pub fn retune(&mut self, delay: usize, feedback: u32, damp: u32, rest: u32)
        requires
            old(self).wf(),
        ensures
            final(self).wf(),
            final(self)@ == (CombView {
                delay: crate::dsp::delay::settable(delay as int, old(self)@.past.len()),
                feedback,
                damp,
                rest,
                ..old(self)@
            }),
    {
        self.line.set_delay(delay);
        self.feedback = feedback;
        self.damp = damp;
        self.rest = rest;
    }

    /// Takes a sample in and gives one out.
    pub fn process<F: Fn(Calc, u32, u32) -> u32>(&mut self, x: u32, f: &F) -> (r: u32)
        requires
            old(self).wf(),
            crate::dsp::arith::callable(*f),
        ensures
            final(self).wf(),
            r == comb_out(old(self)@),
            forall|g: spec_fn(Calc, u32, u32) -> u32| #[trigger]
                crate::dsp::arith::computes(*f, g) ==> final(self)@ == comb_next(old(self)@, x, g),
    {
        let out: u32 = self.line.read();
        let a: u32 = apply(f, Calc::Mul, out, self.rest);
        let b: u32 = apply(f, Calc::Mul, self.store, self.damp);
        let sum: u32 = apply(f, Calc::Add, a, b);
        self.store = settle(self.flushes, sum);
        let back: u32 = apply(f, Calc::Mul, self.store, self.feedback);
        let new: u32 = apply(f, Calc::Add, x, back);
        self.line.store(new);
        out
    }
}

/// The state of a diffuser.
pub struct AllpassView {
    pub past: Seq<u32>,
    pub delay: int,
    pub feedback: u32,
    pub flushes: bool,
}

/// What comes out of a diffuser.
pub open spec fn allpass_out(
    a: AllpassView,
    x: u32,
    g: spec_fn(Calc, u32, u32) -> u32,
) -> u32 {
    g(Calc::Add, crate::float_bits::negated(x), a.past[a.delay - 1])
}

/// A diffuser behind a sample.
pub open spec fn allpass_next(
    a: AllpassView,
    x: u32,
    g: spec_fn(Calc, u32, u32) -> u32,
) -> AllpassView {
    AllpassView {
        past: crate::dsp::delay::pushed(
            a.past,
            settled(
                a.flushes,
                g(Calc::Add, x, g(Calc::Mul, a.past[a.delay - 1], a.feedback)),
            ),
        ),
        ..a
    }
}

/// A diffuser.
pub struct Allpass {
    line: CombLine,
    feedback: u32,
    flushes: bool,
}

impl View for Allpass {
    type V = AllpassView;

    closed spec fn view(&self) -> AllpassView {
        AllpassView {
            past: self.line.past(),
            delay: self.line.delay(),
            feedback: self.feedback,
            flushes: self.flushes,
        }
    }
}

impl Allpass {
    /// The line is sound.
    pub closed spec fn wf(&self) -> bool {
        self.line.wf()
    }

    /// A silent diffuser, as long as it is late.
    pub fn new(len: usize, feedback: u32, flushes: bool) -> (r: Allpass)
        ensures
            r.wf(),
            r@ == (AllpassView {
                past: Seq::new(
                    (if len < 1 {
                        1
                    } else {
                        len as int
                    }) as nat,
                    |i: int| 0u32,
                ),
                delay: (if len < 1 {
                    1
                } else {
                    len as int
                }),
                feedback,
                flushes,
            }),
    {
        Allpass { line: CombLine::new(len, len), feedback, flushes }
    }

    /// Sets the feedback.
    pub fn set_feedback(&mut self, feedback: u32)
        requires
            old(self).wf(),
        ensures
            final(self).wf(),
            final(self)@ == (AllpassView { feedback, ..old(self)@ }),
    {
        self.feedback = feedback;
    }

    /// Takes a sample in and gives one out.
    pub fn process<F: Fn(Calc, u32, u32) -> u32>(&mut self, x: u32, f: &F) -> (r: u32)
        requires
            old(self).wf(),
            crate::dsp::arith::callable(*f),
        ensures
            final(self).wf(),
            forall|g: spec_fn(Calc, u32, u32) -> u32| #[trigger]
                crate::dsp::arith::computes(*f, g) ==> r == allpass_out(old(self)@, x, g)
                    && final(self)@ == allpass_next(old(self)@, x, g),
    {
        let old_value: u32 = self.line.read();
        let out: u32 = apply(f, Calc::Add, negate(x), old_value);
        let back: u32 = apply(f, Calc::Mul, old_value, self.feedback);
        let new: u32 = apply(f, Calc::Add, x, back);
        self.line.store(settle(self.flushes, new));
        out
    }
}

/// One side of a room.
pub struct TankView {
    pub combs: Seq<CombView>,
    pub diffusers: Seq<AllpassView>,
}

/// The sum of the first `n` combs.
pub open spec fn combs_sum(
    combs: Seq<CombView>,
    n: nat,
    g: spec_fn(Calc, u32, u32) -> u32,
) -> u32
    decreases n,
{
    if n == 0 {
        0
    } else {
        g(Calc::Add, combs_sum(combs, (n - 1) as nat, g), comb_out(combs[n - 1]))
    }
}

/// The combs behind a sample that the first `n` have met.
pub open spec fn combs_next(
    combs: Seq<CombView>,
    x: u32,
    n: nat,
    g: spec_fn(Calc, u32, u32) -> u32,
) -> Seq<CombView> {
    Seq::new(
        combs.len(),
        |i: int|
            if i < n {
                comb_next(combs[i], x, g)
            } else {
                combs[i]
            },
    )
}

/// A sample behind the first `n` diffusers.
pub open spec fn diffused(
    diffusers: Seq<AllpassView>,
    x: u32,
    n: nat,
    g: spec_fn(Calc, u32, u32) -> u32,
) -> u32
    decreases n,
{
    if n == 0 {
        x
    } else {
        allpass_out(diffusers[n - 1], diffused(diffusers, x, (n - 1) as nat, g), g)
    }
}

/// The diffusers behind a sample that the first `n` have met.
pub open spec fn diffusers_next(
    diffusers: Seq<AllpassView>,
    x: u32,
    n: nat,
    g: spec_fn(Calc, u32, u32) -> u32,
) -> Seq<AllpassView> {
    Seq::new(
        diffusers.len(),
        |i: int|
            if i < n {
                allpass_next(diffusers[i], diffused(diffusers, x, i as nat, g), g)
            } else {
                diffusers[i]
            },
    )
}

/// What comes out of one side of a room.
pub open spec fn tank_out(t: TankView, g: spec_fn(Calc, u32, u32) -> u32) -> u32 {
    diffused(t.diffusers, combs_sum(t.combs, t.combs.len(), g), t.diffusers.len(), g)
}

/// One side of a room behind a sample.
pub open spec fn tank_next(t: TankView, x: u32, g: spec_fn(Calc, u32, u32) -> u32) -> TankView {
    TankView {
        combs: combs_next(t.combs, x, t.combs.len(), g),
        diffusers: diffusers_next(
            t.diffusers,
            combs_sum(t.combs, t.combs.len(), g),
            t.diffusers.len(),
            g,
        ),
    }
}

/// One side of a room.
pub struct Tank {
    combs: Vec<Comb>,
    diffusers: Vec<Allpass>,
}

impl View for Tank {
    type V = TankView;

    closed spec fn view(&self) -> TankView {
        TankView {
            combs: self.combs@.map_values(|c: Comb| c@),
            diffusers: self.diffusers@.map_values(|a: Allpass| a@),
        }
    }
}

impl Tank {
    /// All lines are sound.
    pub closed spec fn wf(&self) -> bool {
        &&& forall|i: int| 0 <= i < self.combs@.len() ==> (#[trigger] self.combs@[i]).wf()
        &&& forall|i: int| 0 <= i < self.diffusers@.len() ==> (#[trigger] self.diffusers@[i]).wf()
    }

    /// One side of a room, of sound combs and diffusers.
    pub fn new(combs: Vec<Comb>, diffusers: Vec<Allpass>) -> (r: Tank)
        requires
            forall|i: int| 0 <= i < combs@.len() ==> (#[trigger] combs@[i]).wf(),
            forall|i: int| 0 <= i < diffusers@.len() ==> (#[trigger] diffusers@[i]).wf(),
        ensures
            r.wf(),
            r@.combs == combs@.map_values(|c: Comb| c@),
            r@.diffusers == diffusers@.map_values(|a: Allpass| a@),
    {
        Tank { combs, diffusers }
    }

    fn comb_stage<F: Fn(Calc, u32, u32) -> u32>(&mut self, x: u32, f: &F) -> (r: u32)
        requires
            old(self).wf(),
            crate::dsp::arith::callable(*f),
        ensures
            final(self).wf(),
            final(self)@.combs.len() == old(self)@.combs.len(),
            final(self)@.diffusers == old(self)@.diffusers,
            forall|g: spec_fn(Calc, u32, u32) -> u32| #[trigger]
                crate::dsp::arith::computes(*f, g) ==> r == combs_sum(
                    old(self)@.combs,
                    old(self)@.combs.len(),
                    g,
                ) && final(self)@.combs == combs_next(
                    old(self)@.combs,
                    x,
                    old(self)@.combs.len(),
                    g,
                ),
    {
        let ghost all = self@.combs;
        let mut sum: u32 = 0;
        let mut k: usize = 0;
        assert forall|g: spec_fn(Calc, u32, u32) -> u32| #[trigger]
            crate::dsp::arith::computes(*f, g) implies self@.combs == combs_next(all, x, 0, g) by {
            assert(self@.combs =~= combs_next(all, x, 0, g));
        }
        while k < self.combs.len()
            invariant
                k <= self.combs@.len(),
                self.wf(),
                self.combs@.len() == all.len(),
                self@.diffusers == old(self)@.diffusers,
                crate::dsp::arith::callable(*f),
                forall|g: spec_fn(Calc, u32, u32) -> u32| #[trigger]
                    crate::dsp::arith::computes(*f, g) ==> sum == combs_sum(all, k as nat, g)
                        && self@.combs == combs_next(all, x, k as nat, g),
            decreases self.combs@.len() - k,
        {
            let ghost combs0 = self.combs@;
            let ghost views0 = self@.combs;
            assert(combs0[k as int].wf());
            let out: u32 = self.combs[k].process(x, f);
            sum = apply(f, Calc::Add, sum, out);
            proof {
                assert forall|i: int| 0 <= i < self.combs@.len() implies (
                #[trigger] self.combs@[i]).wf() by {
                    assert(combs0[i].wf());
                }
                assert(views0[k as int] == combs0[k as int]@);
                assert forall|g: spec_fn(Calc, u32, u32) -> u32| #[trigger]
                    crate::dsp::arith::computes(*f, g) implies self@.combs == combs_next(
                    all,
                    x,
                    (k + 1) as nat,
                    g,
                ) && sum == combs_sum(all, (k + 1) as nat, g) by {
                    assert(views0 == combs_next(all, x, k as nat, g));
                    assert(views0[k as int] == all[k as int]);
                    assert forall|i: int| 0 <= i < all.len() implies #[trigger] self@.combs[i]
                        == combs_next(all, x, (k + 1) as nat, g)[i] by {
                        assert(self@.combs[i] == self.combs@[i]@);
                        assert(views0[i] == combs0[i]@);
                    }
                    assert(self@.combs =~= combs_next(all, x, (k + 1) as nat, g));
                }
            }
            k += 1;
        }
        sum
    }

    fn diffuse<F: Fn(Calc, u32, u32) -> u32>(&mut self, x: u32, f: &F) -> (r: u32)
        requires
            old(self).wf(),
            crate::dsp::arith::callable(*f),
        ensures
            final(self).wf(),
            final(self)@.combs == old(self)@.combs,
            forall|g: spec_fn(Calc, u32, u32) -> u32| #[trigger]
                crate::dsp::arith::computes(*f, g) ==> r == diffused(
                    old(self)@.diffusers,
                    x,
                    old(self)@.diffusers.len(),
                    g,
                ) && final(self)@.diffusers == diffusers_next(
                    old(self)@.diffusers,
                    x,
                    old(self)@.diffusers.len(),
                    g,
                ),
    {
        let ghost all = self@.diffusers;
        let mut y: u32 = x;
        let mut k: usize = 0;
        assert forall|g: spec_fn(Calc, u32, u32) -> u32| #[trigger]
            crate::dsp::arith::computes(*f, g) implies self@.diffusers == diffusers_next(
            all,
            x,
            0,
            g,
        ) by {
            assert(self@.diffusers =~= diffusers_next(all, x, 0, g));
        }
        while k < self.diffusers.len()
            invariant
                k <= self.diffusers@.len(),
                self.wf(),
                self.diffusers@.len() == all.len(),
                self@.combs == old(self)@.combs,
                crate::dsp::arith::callable(*f),
                forall|g: spec_fn(Calc, u32, u32) -> u32| #[trigger]
                    crate::dsp::arith::computes(*f, g) ==> y == diffused(all, x, k as nat, g)
                        && self@.diffusers == diffusers_next(all, x, k as nat, g),
            decreases self.diffusers@.len() - k,
        {
            let ghost diffusers0 = self.diffusers@;
            let ghost views0 = self@.diffusers;
            assert(diffusers0[k as int].wf());
            y = self.diffusers[k].process(y, f);
            proof {
                assert forall|i: int| 0 <= i < self.diffusers@.len() implies (
                #[trigger] self.diffusers@[i]).wf() by {
                    assert(diffusers0[i].wf());
                }
                assert(views0[k as int] == diffusers0[k as int]@);
                assert forall|g: spec_fn(Calc, u32, u32) -> u32| #[trigger]
                    crate::dsp::arith::computes(*f, g) implies self@.diffusers == diffusers_next(
                    all,
                    x,
                    (k + 1) as nat,
                    g,
                ) && y == diffused(all, x, (k + 1) as nat, g) by {
                    assert(views0 == diffusers_next(all, x, k as nat, g));
                    assert(views0[k as int] == all[k as int]);
                    assert forall|i: int| 0 <= i < all.len() implies #[trigger] self@.diffusers[i]
                        == diffusers_next(all, x, (k + 1) as nat, g)[i] by {
                        assert(self@.diffusers[i] == self.diffusers@[i]@);
                        assert(views0[i] == diffusers0[i]@);
                    }
                    assert(self@.diffusers =~= diffusers_next(all, x, (k + 1) as nat, g));
                }
            }
            k += 1;
        }
        y
    }

    /// Takes a sample in and gives one out.
    pub fn process<F: Fn(Calc, u32, u32) -> u32>(&mut self, x: u32, f: &F) -> (r: u32)
        requires
            old(self).wf(),
            crate::dsp::arith::callable(*f),
        ensures
            final(self).wf(),
            final(self)@.combs.len() == old(self)@.combs.len(),
            forall|g: spec_fn(Calc, u32, u32) -> u32| #[trigger]
                crate::dsp::arith::computes(*f, g) ==> r == tank_out(old(self)@, g) && final(self)@
                    == tank_next(old(self)@, x, g),
    {
        let sum: u32 = self.comb_stage(x, f);
        self.diffuse(sum, f)
    }

    /// Sets the delays, the feedback and the damping of the combs and the feedback of the diffusers.
    pub fn retune(
        &mut self,
        delays: &Vec<usize>,
        feedback: u32,
        damp: u32,
        rest: u32,
        diffusion: u32,
    )
        requires
            old(self).wf(),
            delays@.len() == old(self)@.combs.len(),
        ensures
            final(self).wf(),
            final(self)@.combs == Seq::new(
                old(self)@.combs.len(),
                |i: int|
                    CombView {
                        delay: crate::dsp::delay::settable(
                            delays@[i] as int,
                            old(self)@.combs[i].past.len(),
                        ),
                        feedback,
                        damp,
                        rest,
                        ..old(self)@.combs[i]
                    },
            ),
            final(self)@.diffusers == old(self)@.diffusers.map_values(
                |a: AllpassView| AllpassView { feedback: diffusion, ..a },
            ),
    {
        let ghost combs = self@.combs;
        let ghost diffusers = self@.diffusers;
        let mut k: usize = 0;
        while k < self.combs.len()
            invariant
                k <= self.combs@.len(),
                self.wf(),
                self.combs@.len() == combs.len(),
                delays@.len() == combs.len(),
                self@.diffusers == diffusers,
                forall|i: int|
                    0 <= i < combs.len() ==> #[trigger] self@.combs[i] == (if i < k {
                        CombView {
                            delay: crate::dsp::delay::settable(
                                delays@[i] as int,
                                combs[i].past.len(),
                            ),
                            feedback,
                            damp,
                            rest,
                            ..combs[i]
                        }
                    } else {
                        combs[i]
                    }),
            decreases self.combs@.len() - k,
        {
            let ghost combs0 = self.combs@;
            let ghost views0 = self@.combs;
            assert(combs0[k as int].wf());
            assert(views0[k as int] == combs0[k as int]@);
            self.combs[k].retune(delays[k], feedback, damp, rest);
            proof {
                assert forall|i: int| 0 <= i < self.combs@.len() implies (
                #[trigger] self.combs@[i]).wf() by {
                    assert(combs0[i].wf());
                }
                assert forall|i: int| 0 <= i < combs.len() implies #[trigger] self@.combs[i] == (if i
                    < k + 1 {
                    CombView {
                        delay: crate::dsp::delay::settable(delays@[i] as int, combs[i].past.len()),
                        feedback,
                        damp,
                        rest,
                        ..combs[i]
                    }
                } else {
                    combs[i]
                }) by {
                    assert(self@.combs[i] == self.combs@[i]@);
                    assert(views0[i] == combs0[i]@);
                }
            }
            k += 1;
        }
        let ghost tuned = self@.combs;
        let mut j: usize = 0;
        while j < self.diffusers.len()
            invariant
                j <= self.diffusers@.len(),
                self.wf(),
                self.diffusers@.len() == diffusers.len(),
                self@.combs == tuned,
                forall|i: int|
                    0 <= i < diffusers.len() ==> #[trigger] self@.diffusers[i] == (if i < j {
                        AllpassView { feedback: diffusion, ..diffusers[i] }
                    } else {
                        diffusers[i]
                    }),
            decreases self.diffusers@.len() - j,
        {
            let ghost diffusers0 = self.diffusers@;
            let ghost views0 = self@.diffusers;
            assert(diffusers0[j as int].wf());
            assert(views0[j as int] == diffusers0[j as int]@);
            self.diffusers[j].set_feedback(diffusion);
            proof {
                assert forall|i: int| 0 <= i < self.diffusers@.len() implies (
                #[trigger] self.diffusers@[i]).wf() by {
                    assert(diffusers0[i].wf());
                }
                assert forall|i: int| 0 <= i < diffusers.len() implies #[trigger] self@.diffusers[i]
                    == (if i < j + 1 {
                    AllpassView { feedback: diffusion, ..diffusers[i] }
                } else {
                    diffusers[i]
                }) by {
                    assert(self@.diffusers[i] == self.diffusers@[i]@);
                    assert(views0[i] == diffusers0[i]@);
                }
            }
            j += 1;
        }
        proof {
            let before = old(self)@;
            assert(self@.combs =~= Seq::new(
                before.combs.len(),
                |i: int|
                    CombView {
                        delay: crate::dsp::delay::settable(
                            delays@[i] as int,
                            before.combs[i].past.len(),
                        ),
                        feedback,
                        damp,
                        rest,
                        ..before.combs[i]
                    },
            ));
            assert(self@.diffusers =~= before.diffusers.map_values(
                |a: AllpassView| AllpassView { feedback: diffusion, ..a },
            ));
        }
    }
}

/// A reverb that makes two tails of one signal.
pub struct RoomReverb {
    pub left: Tank,
    pub right: Tank,
}

impl RoomReverb {
    /// Both sides are sound.
    pub open spec fn wf(&self) -> bool {
        self.left.wf() && self.right.wf()
    }

    /// Takes a sample in and gives the left and the right tail out.
    pub fn process<F: Fn(Calc, u32, u32) -> u32>(&mut self, x: u32, f: &F) -> (r: (u32, u32))
        requires
            old(self).wf(),
            crate::dsp::arith::callable(*f),
        ensures
            final(self).wf(),
            forall|g: spec_fn(Calc, u32, u32) -> u32| #[trigger]
                crate::dsp::arith::computes(*f, g) ==> {
                    let fed = g(Calc::Mul, x, REVERB_INPUT);
                    &&& r == (tank_out(old(self).left@, g), tank_out(old(self).right@, g))
                    &&& final(self).left@ == tank_next(old(self).left@, fed, g)
                    &&& final(self).right@ == tank_next(old(self).right@, fed, g)
                },
    {
        let fed: u32 = apply(f, Calc::Mul, x, REVERB_INPUT);
        let l: u32 = self.left.process(fed, f);
        let r: u32 = self.right.process(fed, f);
        (l, r)
    }
}

/// The state of the room stage.
pub struct RoomView {
    pub enabled: bool,
    pub wet: u32,
    pub pre_delay: int,
    pub left: TankView,
    pub right: TankView,
    /// The signal in front of the room, the newest first.
    pub left_past: Seq<u32>,
    pub right_past: Seq<u32>,
}

/// A sample in front of the room, late by the delay.
pub open spec fn late(past: Seq<u32>, x: u32, delay: int) -> u32 {
    if delay == 0 {
        x
    } else {
        past[crate::dsp::delay::pre_delay_reach(delay, past.len()) - 1]
    }
}

/// The signal in front of the room behind a sample; without a delay nothing is stored.
pub open spec fn late_next(past: Seq<u32>, x: u32, delay: int) -> Seq<u32> {
    if delay == 0 {
        past
    } else {
        crate::dsp::delay::pushed(past, x)
    }
}

/// What enters the room for a frame.
pub open spec fn room_input(
    s: RoomView,
    l: u32,
    r: u32,
    g: spec_fn(Calc, u32, u32) -> u32,
) -> u32 {
    g(
        Calc::Mul,
        g(Calc::Add, late(s.left_past, l, s.pre_delay), late(s.right_past, r, s.pre_delay)),
        ROOM_INPUT,
    )
}

/// The room behind a frame.
pub open spec fn room_next(
    s: RoomView,
    l: u32,
    r: u32,
    g: spec_fn(Calc, u32, u32) -> u32,
) -> RoomView {
    let fed = room_input(s, l, r, g);
    RoomView {
        left: tank_next(s.left, fed, g),
        right: tank_next(s.right, fed, g),
        left_past: late_next(s.left_past, l, s.pre_delay),
        right_past: late_next(s.right_past, r, s.pre_delay),
        ..s
    }
}

/// One side of a frame: the dry signal and the room, within the limit.
pub open spec fn room_side(
    s: RoomView,
    dry: u32,
    wet: u32,
    g: spec_fn(Calc, u32, u32) -> u32,
) -> u32 {
    crate::dsp::arith::limited(
        g(
            Calc::Add,
            g(Calc::Mul, dry, g(Calc::Sub, ONE_BITS, s.wet)),
            g(Calc::Mul, wet, s.wet),
        ),
    )
}

/// A frame behind the room.
pub open spec fn room_out(
    s: RoomView,
    l: u32,
    r: u32,
    g: spec_fn(Calc, u32, u32) -> u32,
) -> (u32, u32) {
    (room_side(s, l, tank_out(s.left, g), g), room_side(s, r, tank_out(s.right, g), g))
}

/// The room and the block behind the first `n` frames. A single channel hears the mean of both
/// sides.
pub open spec fn room_block(
    s: RoomView,
    buffer: Seq<u32>,
    channels: int,
    n: nat,
    g: spec_fn(Calc, u32, u32) -> u32,
) -> (RoomView, Seq<u32>)
    decreases n,
{
    if n == 0 {
        (s, buffer)
    } else {
        let (t, b) = room_block(s, buffer, channels, (n - 1) as nat, g);
        let at = (n - 1) * channels;
        let l = b[at];
        let r = if channels >= 2 {
            b[at + 1]
        } else {
            l
        };
        let (ol, or) = room_out(t, l, r, g);
        (
            room_next(t, l, r, g),
            if channels >= 2 {
                b.update(at, ol).update(at + 1, or)
            } else {
                b.update(at, g(Calc::Mul, g(Calc::Add, ol, or), HALF_BITS))
            },
        )
    }
}

/// The room stage does nothing with a block.
pub open spec fn room_bypassed(s: RoomView, channels: int) -> bool {
    !s.enabled || crate::float_bits::at_most(s.wet, 0) || channels == 0
}

/// The room stage.
pub struct RoomEffects {
    enabled: bool,
    wet: u32,
    pre_delay: usize,
    left: Tank,
    right: Tank,
    left_line: PreDelay,
    right_line: PreDelay,
}

impl View for RoomEffects {
    type V = RoomView;

    closed spec fn view(&self) -> RoomView {
        RoomView {
            enabled: self.enabled,
            wet: self.wet,
            pre_delay: self.pre_delay as int,
            left: self.left@,
            right: self.right@,
            left_past: self.left_line.past(),
            right_past: self.right_line.past(),
        }
    }
}

impl RoomEffects {
    /// Both sides and both lines are sound.
    pub closed spec fn wf(&self) -> bool {
        self.left.wf() && self.right.wf() && self.left_line.wf() && self.right_line.wf()
    }

    /// A room that is switched off, with lines that hold `cap` samples.
    pub fn new(left: Tank, right: Tank, cap: usize, pre_delay: usize) -> (r: RoomEffects)
        requires
            left.wf(),
            right.wf(),
        ensures
            r.wf(),
            r@ == (RoomView {
                enabled: false,
                wet: 0,
                pre_delay: pre_delay as int,
                left: left@,
                right: right@,
                left_past: Seq::new(
                    (if cap < 1 {
                        1
                    } else {
                        cap as int
                    }) as nat,
                    |i: int| 0u32,
                ),
                right_past: Seq::new(
                    (if cap < 1 {
                        1
                    } else {
                        cap as int
                    }) as nat,
                    |i: int| 0u32,
                ),
            }),
    {
        RoomEffects {
            enabled: false,
            wet: 0,
            pre_delay,
            left,
            right,
            left_line: PreDelay::new(cap),
            right_line: PreDelay::new(cap),
        }
    }

    /// Takes a new room in place of the old one; the settings stay.
    pub fn prepare(&mut self, left: Tank, right: Tank, cap: usize)
        requires
            left.wf(),
            right.wf(),
        ensures
            final(self).wf(),
            final(self)@ == (RoomView {
                left: left@,
                right: right@,
                left_past: Seq::new(
                    (if cap < 1 {
                        1
                    } else {
                        cap as int
                    }) as nat,
                    |i: int| 0u32,
                ),
                right_past: Seq::new(
                    (if cap < 1 {
                        1
                    } else {
                        cap as int
                    }) as nat,
                    |i: int| 0u32,
                ),
                ..old(self)@
            }),
    {
        self.left = left;
        self.right = right;
        self.left_line = PreDelay::new(cap);
        self.right_line = PreDelay::new(cap);
    }

    /// Takes settings; the share of the room is cut to the range from zero to one.
    pub fn set_params(&mut self, enabled: bool, wet: u32)
        requires
            old(self).wf(),
        ensures
            final(self).wf(),
            final(self)@ == (RoomView {
                enabled,
                wet: crate::dsp::arith::unit(wet),
                ..old(self)@
            }),
    {
        self.enabled = enabled;
        self.wet = to_unit(wet);
    }

    /// Changes the room while it sounds.
    pub fn retune(
        &mut self,
        left: &Vec<usize>,
        right: &Vec<usize>,
        feedback: u32,
        damp: u32,
        rest: u32,
        diffusion: u32,
        pre_delay: usize,
    )
        requires
            old(self).wf(),
            left@.len() == old(self)@.left.combs.len(),
            right@.len() == old(self)@.right.combs.len(),
        ensures
            final(self).wf(),
            final(self)@ == (RoomView {
                pre_delay: pre_delay as int,
                left: tank_tuned(old(self)@.left, left@, feedback, damp, rest, diffusion),
                right: tank_tuned(old(self)@.right, right@, feedback, damp, rest, diffusion),
                ..old(self)@
            }),
    {
        self.left.retune(left, feedback, damp, rest, diffusion);
        self.right.retune(right, feedback, damp, rest, diffusion);
        self.pre_delay = pre_delay;
    }

    /// One frame.
    fn frame<F: Fn(Calc, u32, u32) -> u32>(&mut self, l: u32, r: u32, f: &F) -> (out: (u32, u32))
        requires
            old(self).wf(),
            crate::dsp::arith::callable(*f),
        ensures
            final(self).wf(),
            final(self)@.left.combs.len() == old(self)@.left.combs.len(),
            final(self)@.right.combs.len() == old(self)@.right.combs.len(),
            forall|g: spec_fn(Calc, u32, u32) -> u32| #[trigger]
                crate::dsp::arith::computes(*f, g) ==> out == room_out(old(self)@, l, r, g)
                    && final(self)@ == room_next(old(self)@, l, r, g),
    {
        let pl: u32 = self.left_line.process(l, self.pre_delay);
        let pr: u32 = self.right_line.process(r, self.pre_delay);
        let sum: u32 = apply(f, Calc::Add, pl, pr);
        let fed: u32 = apply(f, Calc::Mul, sum, ROOM_INPUT);
        let wl: u32 = self.left.process(fed, f);
        let wr: u32 = self.right.process(fed, f);
        let dry: u32 = apply(f, Calc::Sub, ONE_BITS, self.wet);
        let dl: u32 = apply(f, Calc::Mul, l, dry);
        let dr: u32 = apply(f, Calc::Mul, r, dry);
        let ml: u32 = apply(f, Calc::Mul, wl, self.wet);
        let mr: u32 = apply(f, Calc::Mul, wr, self.wet);
        let ol: u32 = apply(f, Calc::Add, dl, ml);
        let or: u32 = apply(f, Calc::Add, dr, mr);
        (limit(ol), limit(or))
    }

    /// Processes a block in place; a room that is off or not mixed in leaves it alone.
    pub fn process<F: Fn(Calc, u32, u32) -> u32>(
        &mut self,
        buffer: &mut Vec<u32>,
        channels: usize,
        f: &F,
    )
        requires
            old(self).wf(),
            crate::dsp::arith::callable(*f),
        ensures
            final(self).wf(),
            final(buffer)@.len() == old(buffer)@.len(),
            final(self)@.left.combs.len() == old(self)@.left.combs.len(),
            final(self)@.right.combs.len() == old(self)@.right.combs.len(),
            room_bypassed(old(self)@, channels as int) ==> final(buffer)@ == old(buffer)@
                && final(self)@ == old(self)@,
            !room_bypassed(old(self)@, channels as int) ==> forall|
                g: spec_fn(Calc, u32, u32) -> u32,
            | #[trigger]
                crate::dsp::arith::computes(*f, g) ==> room_block(
                    old(self)@,
                    old(buffer)@,
                    channels as int,
                    old(buffer)@.len() / (channels as nat),
                    g,
                ) == (final(self)@, final(buffer)@),
    {
        if !self.enabled || not_above(self.wet, 0) || channels == 0 {
            return;
        }
        let ghost start = self@;
        let frames: usize = buffer.len() / channels;
        let mut n: usize = 0;
        while n < frames
            invariant
                n <= frames,
                channels >= 1,
                frames == buffer@.len() / (channels as nat),
                buffer@.len() == old(buffer)@.len(),
                self.wf(),
                self@.left.combs.len() == start.left.combs.len(),
                self@.right.combs.len() == start.right.combs.len(),
                crate::dsp::arith::callable(*f),
                forall|g: spec_fn(Calc, u32, u32) -> u32| #[trigger]
                    crate::dsp::arith::computes(*f, g) ==> room_block(
                        start,
                        old(buffer)@,
                        channels as int,
                        n as nat,
                        g,
                    ) == (self@, buffer@),
            decreases frames - n,
        {
            let len: usize = buffer.len();
            proof {
                crate::dsp::arith::lemma_frame_inside(n as int, len as int, channels as int);
            }
            assert(n * channels + channels <= len);
            let at: usize = n * channels;
            let l: u32 = buffer[at];
            let r: u32 = if channels >= 2 {
                buffer[at + 1]
            } else {
                l
            };
            let (ol, or): (u32, u32) = self.frame(l, r, f);
            if channels >= 2 {
                buffer.set(at, ol);
                buffer.set(at + 1, or);
            } else {
                let sum: u32 = apply(f, Calc::Add, ol, or);
                let mean: u32 = apply(f, Calc::Mul, sum, HALF_BITS);
                buffer.set(at, mean);
            }
            n += 1;
        }
    }
}

/// One side of a room with other settings.
pub open spec fn tank_tuned(
    t: TankView,
    delays: Seq<usize>,
    feedback: u32,
    damp: u32,
    rest: u32,
    diffusion: u32,
) -> TankView {
    TankView {
        combs: Seq::new(
            t.combs.len(),
            |i: int|
                CombView {
                    delay: crate::dsp::delay::settable(
                        delays[i] as int,
                        t.combs[i].past.len(),
                    ),
                    feedback,
                    damp,
                    rest,
                    ..t.combs[i]
                },
        ),
        diffusers: t.diffusers.map_values(|a: AllpassView| AllpassView { feedback: diffusion, ..a }),
    }
}

} // verus!
