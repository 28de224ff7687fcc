//! The stack machine that runs compiled scripts.
//!
//! Values are single precision floating point numbers, held as their bits. The machine itself
//! moves values, compares them, decides jumps and counts instructions; where an instruction needs
//! arithmetic it stops and asks for the result. A run executes no more instructions than its budget,
//! so a script that never ends is cut off.

use vstd::prelude::*;
use crate::float_bits::{bits_magnitude, guard, is_undefined, less_than, negate, not_above, INFINITY_BITS};
use crate::script::compiler::{Builtin, Num, NumView, Op, OpView, Program, ONE_BITS};

verus! {

/// How many values the stack holds. What is pushed onto a full stack is dropped.
pub const STACK_CAP: usize = 256;

/// The bits of minus one.
pub const MINUS_ONE_BITS: u32 = 0xbf80_0000;

/// The bits of 0.00001: values nearer to each other than this count as equal.
pub const EQ_EPSILON_BITS: u32 = 0x3727_c5ac;

/// A condition fails on zero and on what is not finite.
pub open spec fn is_false(v: u32) -> bool {
    crate::float_bits::magnitude(v) == 0 || !crate::float_bits::finite(v)
}

/// One for true, zero for false.
pub open spec fn truth(b: bool) -> u32 {
    if b {
        ONE_BITS
    } else {
        0
    }
}

/// Minus one, zero or one, as the value is negative, zero (or undefined) or positive.
pub open spec fn sign_of(v: u32) -> u32 {
    if crate::float_bits::less(0, v) {
        ONE_BITS
    } else if crate::float_bits::less(v, 0) {
        MINUS_ONE_BITS
    } else {
        0
    }
}

/// Arithmetic that the machine asks for.
#[derive(Debug, Clone, Copy, PartialEq, Eq, Structural)]
pub enum Request {
    /// The value of the numeral in the instruction at this place.
    Number(usize),
    Add,
    Sub,
    Mul,
    Div,
    Mod,
    Pow,
    /// A function; one with a single argument takes the first operand.
    Call(Builtin),
}

/// How a run ended.
#[derive(Debug, Clone, Copy, PartialEq, Eq, Structural)]
pub enum End {
    /// The instructions came to their end.
    Finished,
    /// The budget was spent with instructions left.
    Exhausted,
    /// A jump led out of the instructions.
    BadJump,
}

/// What the machine does next.
#[derive(Debug, Clone, Copy, PartialEq, Eq, Structural)]
pub enum Step {
    Done(End),
    Ask(Request, u32, u32),
}

/// The state of a run.
pub struct State {
    pub pc: int,
    pub stack: Seq<u32>,
    pub regs: Seq<u32>,
    pub budget: int,
}

/// A value pushed; a full stack drops it.
pub open spec fn pushed(stack: Seq<u32>, v: u32) -> Seq<u32> {
    if stack.len() < STACK_CAP {
        stack.push(v)
    } else {
        stack
    }
}

/// The value on top; of an empty stack, zero.
pub open spec fn top(stack: Seq<u32>) -> u32 {
    if stack.len() == 0 {
        0
    } else {
        stack.last()
    }
}

/// The stack without its top.
pub open spec fn popped(stack: Seq<u32>) -> Seq<u32> {
    if stack.len() == 0 {
        stack
    } else {
        stack.drop_last()
    }
}

/// The register, or zero where there is none.
pub open spec fn register_value(regs: Seq<u32>, r: int) -> u32 {
    if 0 <= r < regs.len() {
        regs[r]
    } else {
        0
    }
}

/// The registers with one written; a register that does not exist is not.
pub open spec fn register_set(regs: Seq<u32>, r: int, v: u32) -> Seq<u32> {
    if 0 <= r < regs.len() {
        regs.update(r, v)
    } else {
        regs
    }
}

/// What one instruction leads to.
pub enum Effect {
    Go(State),
    Stop(End, State),
    Wait(Request, u32, u32, State),
}

/// A jump: it must lead to an instruction.
pub open spec fn jump(s: State, target: int, len: int) -> Effect {
    if 0 <= target < len {
        Effect::Go(State { pc: target, ..s })
    } else {
        Effect::Stop(End::BadJump, s)
    }
}

/// A result of two operands that the machine finds itself.
pub open spec fn decided(op: OpView, a: u32, b: u32) -> u32 {
    match op {
        OpView::Lt => truth(crate::float_bits::less(a, b)),
        OpView::Le => truth(crate::float_bits::at_most(a, b)),
        OpView::Gt => truth(crate::float_bits::less(b, a)),
        OpView::Ge => truth(crate::float_bits::at_most(b, a)),
        OpView::And => truth(!is_false(a) && !is_false(b)),
        _ => truth(!is_false(a) || !is_false(b)),
    }
}

/// The arithmetic of an instruction with two operands.
pub open spec fn request_of(op: OpView) -> Request {
    match op {
        OpView::Add => Request::Add,
        OpView::Mul => Request::Mul,
        OpView::Div => Request::Div,
        OpView::Mod => Request::Mod,
        OpView::Pow => Request::Pow,
        _ => Request::Sub,
    }
}

/// A function call: `abs` and `sign` are found from the bits, the others are asked for.
pub open spec fn call_effect(b: Builtin, s: State) -> Effect {
    let a = top(s.stack);
    let rest = popped(s.stack);
    match b {
        Builtin::Abs => Effect::Go(
            State { stack: pushed(rest, crate::float_bits::finite_or_zero(crate::float_bits::magnitude(a) as u32)), ..s },
        ),
        Builtin::Sign => Effect::Go(State { stack: pushed(rest, sign_of(a)), ..s }),
        _ => if crate::script::compiler::arity(b) == 2 {
            Effect::Wait(Request::Call(b), top(rest), a, State { stack: popped(rest), ..s })
        } else {
            Effect::Wait(Request::Call(b), a, 0, State { stack: rest, ..s })
        },
    }
}

/// What an instruction does; `s` is the state behind it, and there are `len` instructions.
pub open spec fn effect(op: OpView, s: State, len: int) -> Effect {
    let a = top(s.stack);
    let rest = popped(s.stack);
    match op {
        OpView::PushConst(NumView::Bits(v)) => Effect::Go(State { stack: pushed(s.stack, v), ..s }),
        OpView::PushConst(NumView::Text(_)) => Effect::Wait(
            Request::Number((s.pc - 1) as usize),
            0,
            0,
            s,
        ),
        OpView::LoadReg(r) => Effect::Go(
            State { stack: pushed(s.stack, register_value(s.regs, r)), ..s },
        ),
        OpView::StoreReg(r) => Effect::Go(
            State { stack: rest, regs: register_set(s.regs, r, a), ..s },
        ),
        OpView::Pop => Effect::Go(State { stack: rest, ..s }),
        OpView::Add | OpView::Sub | OpView::Mul | OpView::Div | OpView::Mod | OpView::Pow
        | OpView::Eq | OpView::Ne => Effect::Wait(
            request_of(op),
            top(rest),
            a,
            State { stack: popped(rest), ..s },
        ),
        OpView::Neg => Effect::Go(
            State { stack: pushed(rest, crate::float_bits::finite_or_zero(crate::float_bits::negated(a))), ..s },
        ),
        OpView::Lt | OpView::Le | OpView::Gt | OpView::Ge | OpView::And | OpView::Or => Effect::Go(
            State { stack: pushed(popped(rest), decided(op, top(rest), a)), ..s },
        ),
        OpView::Not => Effect::Go(State { stack: pushed(rest, truth(is_false(a))), ..s }),
        OpView::Call(b) => call_effect(b, s),
        OpView::JumpIfFalse(t) => if is_false(a) {
            jump(State { stack: rest, ..s }, t, len)
        } else {
            Effect::Go(State { stack: rest, ..s })
        },
        OpView::Jump(t) => jump(s, t, len),
    }
}

/// What the result of the arithmetic puts on the stack: an equality looks at the difference, a
/// numeral stands for its value, and any other result must be finite.
pub open spec fn answer(op: OpView, v: u32) -> u32 {
    match op {
        OpView::PushConst(_) => v,
        OpView::Eq => truth(!crate::float_bits::undefined(v) && crate::float_bits::magnitude(v) < EQ_EPSILON_BITS),
        OpView::Ne => truth(!crate::float_bits::undefined(v) && crate::float_bits::magnitude(v) >= EQ_EPSILON_BITS),
        _ => crate::float_bits::finite_or_zero(v),
    }
}

/// The run from `s` up to its end or its next question.
pub open spec fn advance(ops: Seq<OpView>, s: State) -> Effect
    decreases s.budget,
{
    if !(0 <= s.pc < ops.len()) {
        Effect::Stop(End::Finished, s)
    } else if s.budget <= 0 {
        Effect::Stop(End::Exhausted, s)
    } else {
        match effect(ops[s.pc], State { pc: s.pc + 1, budget: s.budget - 1, ..s }, ops.len() as int) {
            Effect::Go(next) => advance(ops, next),
            other => other,
        }
    }
}

/// The run goes on behind the instruction that asked, with the result `v`.
pub open spec fn resumed(ops: Seq<OpView>, s: State, v: u32) -> State {
    if 0 < s.pc <= ops.len() {
        State { stack: pushed(s.stack, answer(ops[s.pc - 1], v)), ..s }
    } else {
        s
    }
}

fn fails(v: u32) -> (r: bool)
    ensures
        r == is_false(v),
{
    let m: u32 = bits_magnitude(v);
    m == 0 || m >= INFINITY_BITS
}

fn truth_bits(b: bool) -> (r: u32)
    ensures
        r == truth(b),
{
    if b {
        ONE_BITS
    } else {
        0
    }
}

/// A run of the machine over the instructions of one section.
pub struct Machine {
    pc: usize,
    stack: Vec<u32>,
    budget: u32,
}

impl Machine {
    /// The state of the run, with the registers it works on.
    pub closed spec fn state(&self, regs: Seq<u32>) -> State {
        State {
            pc: self.pc as int,
            stack: self.stack@,
            regs,
            budget: self.budget as int,
        }
    }

    /// A run that starts at the first instruction with an empty stack.
    pub fn new(budget: u32) -> (r: Machine)
        ensures
            forall|regs: Seq<u32>|
                #[trigger] r.state(regs) == (State {
                    pc: 0,
                    stack: Seq::empty(),
                    regs,
                    budget: budget as int,
                }),
    {
        Machine { pc: 0, stack: Vec::with_capacity(STACK_CAP), budget }
    }

    /// Starts over, keeping the memory of the stack.
    pub fn restart(&mut self, budget: u32)
        ensures
            forall|regs: Seq<u32>|
                #[trigger] final(self).state(regs) == (State {
                    pc: 0,
                    stack: Seq::empty(),
                    regs,
                    budget: budget as int,
                }),
    {
        self.pc = 0;
        self.stack.clear();
        self.budget = budget;
    }

    /// What is left of the budget.
    pub fn budget(&self) -> (r: u32)
        ensures
            forall|regs: Seq<u32>| r == (#[trigger] self.state(regs)).budget,
    {
        self.budget
    }

    fn push(&mut self, v: u32)
        ensures
            final(self).stack@ == pushed(old(self).stack@, v),
            final(self).pc == old(self).pc,
            final(self).budget == old(self).budget,
    {
        if self.stack.len() < STACK_CAP {
            self.stack.push(v);
        }
    }

    fn pop(&mut self) -> (v: u32)
        ensures
            v == top(old(self).stack@),
            final(self).stack@ == popped(old(self).stack@),
            final(self).pc == old(self).pc,
            final(self).budget == old(self).budget,
    {
        match self.stack.pop() {
            Some(v) => v,
            None => 0,
        }
    }

    /// Pops the operands of an instruction and asks for its arithmetic.
    fn ask_binary(&mut self, what: Request) -> (r: Step)
        ensures
            r == Step::Ask(what, top(popped(old(self).stack@)), top(old(self).stack@)),
            final(self).stack@ == popped(popped(old(self).stack@)),
            final(self).pc == old(self).pc,
            final(self).budget == old(self).budget,
    {
        let b: u32 = self.pop();
        let a: u32 = self.pop();
        Step::Ask(what, a, b)
    }

    /// Goes to a place, which must hold an instruction.
    fn jump_to(&mut self, target: u32, len: usize) -> (r: Option<Step>)
        ensures
            shown(r, *final(self), Seq::empty(), jump(old(self).state(Seq::empty()), target as int, len as int)),
            final(self).stack == old(self).stack,
            final(self).budget == old(self).budget,
    {
        if (target as usize) < len {
            self.pc = target as usize;
            None
        } else {
            Some(Step::Done(End::BadJump))
        }
    }

    /// Pops the arguments of a function and finds its value, or asks for it.
    fn dispatch_builtin(&mut self, b: Builtin) -> (r: Option<Step>)
        ensures
            forall|regs: Seq<u32>|
                shown(r, *final(self), regs, #[trigger] call_effect(b, old(self).state(regs))),
    {
        match b {
            Builtin::Abs => {
                let a: u32 = self.pop();
                self.push(guard(bits_magnitude(a)));
                None
            },
            Builtin::Sign => {
                let a: u32 = self.pop();
                let v: u32 = if less_than(0, a) {
                    ONE_BITS
                } else if less_than(a, 0) {
                    MINUS_ONE_BITS
                } else {
                    0
                };
                self.push(v);
                None
            },
            Builtin::Atan2 | Builtin::Pow | Builtin::Min | Builtin::Max | Builtin::Fmod => {
                Some(self.ask_binary(Request::Call(b)))
            },
            _ => {
                let a: u32 = self.pop();
                Some(Step::Ask(Request::Call(b), a, 0))
            },
        }
    }

    /// Executes one instruction, which the place has already moved past.
    fn execute(&mut self, op: &Op, len: usize, regs: &mut Vec<u32>) -> (r: Option<Step>)
        requires
            0 < old(self).pc,
        ensures
            shown(
                r,
                *final(self),
                final(regs)@,
                effect(op@, old(self).state(old(regs)@), len as int),
            ),
    {
        match op {
            Op::PushConst(Num::Bits(v)) => {
                self.push(*v);
            },
            Op::PushConst(Num::Text(_)) => {
                return Some(Step::Ask(Request::Number(self.pc - 1), 0, 0));
            },
            Op::LoadReg(i) => {
                let at: usize = *i as usize;
                let v: u32 = if at < regs.len() {
                    regs[at]
                } else {
                    0
                };
                self.push(v);
            },
            Op::StoreReg(i) => {
                let at: usize = *i as usize;
                let v: u32 = self.pop();
                if at < regs.len() {
                    regs[at] = v;
                }
            },
            Op::Pop => {
                self.pop();
            },
            Op::Add => {
                return Some(self.ask_binary(Request::Add));
            },
            Op::Sub | Op::Eq | Op::Ne => {
                return Some(self.ask_binary(Request::Sub));
            },
            Op::Mul => {
                return Some(self.ask_binary(Request::Mul));
            },
            Op::Div => {
                return Some(self.ask_binary(Request::Div));
            },
            Op::Mod => {
                return Some(self.ask_binary(Request::Mod));
            },
            Op::Pow => {
                return Some(self.ask_binary(Request::Pow));
            },
            Op::Neg => {
                let a: u32 = self.pop();
                self.push(guard(negate(a)));
            },
            Op::Lt => {
                let b: u32 = self.pop();
                let a: u32 = self.pop();
                self.push(truth_bits(less_than(a, b)));
            },
            Op::Le => {
                let b: u32 = self.pop();
                let a: u32 = self.pop();
                self.push(truth_bits(not_above(a, b)));
            },
            Op::Gt => {
                let b: u32 = self.pop();
                let a: u32 = self.pop();
                self.push(truth_bits(less_than(b, a)));
            },
            Op::Ge => {
                let b: u32 = self.pop();
                let a: u32 = self.pop();
                self.push(truth_bits(not_above(b, a)));
            },
            Op::And => {
                let b: u32 = self.pop();
                let a: u32 = self.pop();
                self.push(truth_bits(!fails(a) && !fails(b)));
            },
            Op::Or => {
                let b: u32 = self.pop();
                let a: u32 = self.pop();
                self.push(truth_bits(!fails(a) || !fails(b)));
            },
            Op::Not => {
                let a: u32 = self.pop();
                self.push(truth_bits(fails(a)));
            },
            Op::Call(b) => {
                return self.dispatch_builtin(*b);
            },
            Op::JumpIfFalse(t) => {
                let a: u32 = self.pop();
                if fails(a) {
                    return self.jump_to(*t, len);
                }
            },
            Op::Jump(t) => {
                return self.jump_to(*t, len);
            },
        }
        None
    }

    /// Runs up to the end or the next question.
    pub fn advance(&mut self, ops: &Vec<Op>, regs: &mut Vec<u32>) -> (r: Step)
        ensures
            ended(
                r,
                final(self).state(final(regs)@),
                advance(crate::script::compiler::op_views(ops@), old(self).state(old(regs)@)),
            ),
    {
        let ghost views = crate::script::compiler::op_views(ops@);
        let ghost all = advance(views, self.state(regs@));
        while self.pc < ops.len()
            invariant
                views == crate::script::compiler::op_views(ops@),
                views.len() == ops@.len(),
                all == advance(views, self.state(regs@)),
                all == advance(views, old(self).state(old(regs)@)),
            decreases self.budget,
        {
            if self.budget == 0 {
                return Step::Done(End::Exhausted);
            }
            self.budget = self.budget - 1;
            let at: usize = self.pc;
            self.pc = at + 1;
            let ghost behind = self.state(regs@);
            assert(views[at as int] == ops@[at as int]@);
            let len: usize = ops.len();
            if let Some(step) = self.execute(&ops[at], len, regs) {
                return step;
            }
        }
        Step::Done(End::Finished)
    }

    /// Goes on with the result of the arithmetic that was asked for.
    pub fn resume(&mut self, ops: &Vec<Op>, v: u32)
        ensures
            forall|regs: Seq<u32>|
                #[trigger] final(self).state(regs) == resumed(
                    crate::script::compiler::op_views(ops@),
                    old(self).state(regs),
                    v,
                ),
    {
        let ghost views = crate::script::compiler::op_views(ops@);
        if self.pc > 0 && self.pc <= ops.len() {
            assert(views[self.pc - 1] == ops@[self.pc - 1]@);
            let value: u32 = match &ops[self.pc - 1] {
                Op::PushConst(_) => v,
                Op::Eq => truth_bits(!is_undefined(v) && bits_magnitude(v) < EQ_EPSILON_BITS),
                Op::Ne => truth_bits(!is_undefined(v) && bits_magnitude(v) >= EQ_EPSILON_BITS),
                _ => guard(v),
            };
            self.push(value);
        }
    }
}

/// The step and state that an instruction has led to; without a step the run goes on.
spec fn shown(r: Option<Step>, m: Machine, regs: Seq<u32>, e: Effect) -> bool {
    match e {
        Effect::Go(s) => r is None && m.state(regs) == s,
        Effect::Stop(end, s) => r == Some(Step::Done(end)) && m.state(regs) == s,
        Effect::Wait(what, a, b, s) => r == Some(Step::Ask(what, a, b)) && m.state(regs) == s,
    }
}

/// The step and state that a run has led to.
pub open spec fn ended(r: Step, s: State, e: Effect) -> bool {
    match e {
        Effect::Go(_) => false,
        Effect::Stop(end, t) => r == Step::Done(end) && s == t,
        Effect::Wait(what, a, b, t) => r == Step::Ask(what, a, b) && s == t,
    }
}

/// A whole run, in which `f` does the arithmetic.
pub open spec fn run(ops: Seq<OpView>, s: State, f: spec_fn(Request, u32, u32) -> u32) -> (End, State)
    decreases s.budget,
{
    match advance(ops, s) {
        Effect::Stop(end, t) => (end, t),
        Effect::Wait(what, a, b, t) => if 0 <= t.budget < s.budget {
            run(ops, resumed(ops, t, f(what, a, b)), f)
        } else {
            (End::Exhausted, t)
        },
        Effect::Go(t) => (End::Exhausted, t),
    }
}

/// What an instruction leads to.
pub open spec fn reached(e: Effect) -> State {
    match e {
        Effect::Go(t) => t,
        Effect::Stop(_, t) => t,
        Effect::Wait(_, _, _, t) => t,
    }
}

/// Every value on the stack and in the registers is finite.
pub open spec fn all_finite(s: State) -> bool {
    &&& forall|i: int| 0 <= i < s.stack.len() ==> crate::float_bits::finite(#[trigger] s.stack[i])
    &&& forall|i: int| 0 <= i < s.regs.len() ==> crate::float_bits::finite(#[trigger] s.regs[i])
}

/// Every number that the instructions hold as bits is finite.
pub open spec fn finite_numbers(ops: Seq<OpView>) -> bool {
    forall|i: int, v: u32|
        0 <= i < ops.len() && #[trigger] ops[i] == OpView::PushConst(NumView::Bits(v)) ==> crate::float_bits::finite(
            #[trigger] id(v),
        )
}

/// The identity, which names a value for the prover.
pub open spec fn id(v: u32) -> u32 {
    v
}

/// A run spends one unit of its budget for each instruction: it gets to a question with less than
/// it had, to its end with no more, and it ends in [`End::Exhausted`] only with nothing left.
pub proof fn law_budget_bounds_a_run(ops: Seq<OpView>, s: State)
    requires
        s.budget >= 0,
    ensures
        match advance(ops, s) {
            Effect::Go(_) => false,
            Effect::Stop(end, t) => 0 <= t.budget <= s.budget && (end == End::Exhausted
                ==> t.budget == 0),
            Effect::Wait(_, _, _, t) => 0 <= t.budget < s.budget,
        },
    decreases s.budget,
{
    if 0 <= s.pc < ops.len() && s.budget > 0 {
        let behind = State { pc: s.pc + 1, budget: s.budget - 1, ..s };
        if let Effect::Go(next) = effect(ops[s.pc], behind, ops.len() as int) {
            law_budget_bounds_a_run(ops, next);
        }
    }
}

/// The stack never outgrows its capacity and a run keeps the number of registers.
pub proof fn law_stack_and_registers_keep_their_size(ops: Seq<OpView>, s: State, v: u32)
    requires
        s.stack.len() <= STACK_CAP,
    ensures
        reached(advance(ops, s)).stack.len() <= STACK_CAP,
        reached(advance(ops, s)).regs.len() == s.regs.len(),
        resumed(ops, s, v).stack.len() <= STACK_CAP,
        resumed(ops, s, v).regs == s.regs,
    decreases s.budget,
{
    if 0 <= s.pc < ops.len() && s.budget > 0 {
        let behind = State { pc: s.pc + 1, budget: s.budget - 1, ..s };
        if let Effect::Go(next) = effect(ops[s.pc], behind, ops.len() as int) {
            law_stack_and_registers_keep_their_size(ops, next, v);
        }
    }
}

proof fn lemma_sound_step(ops: Seq<OpView>, regs: int, s: State)
    requires
        crate::script::compiler::sound(ops, regs, 0, ops.len() - 1),
    ensures
        !(advance(ops, s) matches Effect::Stop(end, _) && end == End::BadJump),
        s.regs.len() > 2 ==> reached(advance(ops, s)).regs.len() > 2 && reached(
            advance(ops, s),
        ).regs[2] == s.regs[2],
    decreases s.budget,
{
    if 0 <= s.pc < ops.len() && s.budget > 0 {
        let behind = State { pc: s.pc + 1, budget: s.budget - 1, ..s };
        assert(crate::script::compiler::sound_op(ops[s.pc], regs, 0, ops.len() - 1));
        if let Effect::Go(next) = effect(ops[s.pc], behind, ops.len() as int) {
            lemma_sound_step(ops, regs, next);
        }
    }
}

/// Whatever its arithmetic yields, a compiled section never jumps out of its instructions and
/// never changes `srate`.
pub proof fn law_compiled_runs_stay_inside(
    ops: Seq<OpView>,
    regs: int,
    s: State,
    f: spec_fn(Request, u32, u32) -> u32,
)
    requires
        crate::script::compiler::sound(ops, regs, 0, ops.len() - 1),
        s.budget >= 0,
        s.regs.len() > 2,
    ensures
        run(ops, s, f).0 != End::BadJump,
        run(ops, s, f).1.regs.len() > 2,
        run(ops, s, f).1.regs[2] == s.regs[2],
    decreases s.budget,
{
    lemma_sound_step(ops, regs, s);
    law_budget_bounds_a_run(ops, s);
    if let Effect::Wait(what, a, b, t) = advance(ops, s) {
        law_compiled_runs_stay_inside(ops, regs, resumed(ops, t, f(what, a, b)), f);
    }
}

proof fn lemma_finite_step(ops: Seq<OpView>, s: State)
    requires
        finite_numbers(ops),
        all_finite(s),
    ensures
        all_finite(reached(advance(ops, s))),
        advance(ops, s) matches Effect::Wait(_, _, _, t) ==> 0 < t.pc <= ops.len(),
        advance(ops, s) matches Effect::Wait(what, _, _, t) ==> (ops[t.pc - 1] is PushConst
            ==> what is Number),
    decreases s.budget,
{
    if 0 <= s.pc < ops.len() && s.budget > 0 {
        let op = ops[s.pc];
        let behind = State { pc: s.pc + 1, budget: s.budget - 1, ..s };
        let e = effect(op, behind, ops.len() as int);
        assert(all_finite(reached(e))) by {
            if let OpView::PushConst(NumView::Bits(v)) = op {
                assert(ops[s.pc] == OpView::PushConst(NumView::Bits(v)));
                assert(crate::float_bits::finite(id(v)));
            }
        }
        if let Effect::Go(next) = e {
            lemma_finite_step(ops, next);
        }
    }
}

/// A run over finite values leaves finite values, whatever its arithmetic yields, where the
/// numerals of the script have finite values.
pub proof fn law_values_stay_finite(
    ops: Seq<OpView>,
    s: State,
    f: spec_fn(Request, u32, u32) -> u32,
)
    requires
        finite_numbers(ops),
        all_finite(s),
        s.budget >= 0,
        forall|at: usize, a: u32, b: u32| crate::float_bits::finite(#[trigger] f(Request::Number(at), a, b)),
    ensures
        all_finite(run(ops, s, f).1),
    decreases s.budget,
{
    lemma_finite_step(ops, s);
    law_budget_bounds_a_run(ops, s);
    if let Effect::Wait(what, a, b, t) = advance(ops, s) {
        let v = f(what, a, b);
        if let Request::Number(at) = what {
            assert(crate::float_bits::finite(f(Request::Number(at), a, b)));
        }
        assert(crate::float_bits::finite(answer(ops[t.pc - 1], v)));
        law_values_stay_finite(ops, resumed(ops, t, v), f);
    }
}

/// Writes the two samples of a frame into their registers.
pub fn load_frame(prog: &Program, regs: &mut Vec<u32>, left: u32, right: u32)
    ensures
        final(regs)@ == register_set(
            register_set(old(regs)@, prog.spl0_reg as int, left),
            prog.spl1_reg as int,
            right,
        ),
{
    let a: usize = prog.spl0_reg as usize;
    let b: usize = prog.spl1_reg as usize;
    if a < regs.len() {
        regs[a] = left;
    }
    if b < regs.len() {
        regs[b] = right;
    }
}

/// The two samples that a run leaves of a frame. A run whose budget was spent leaves the frame as
/// it was; a sample that is not finite becomes zero.
pub open spec fn frame_after(prog: Program, regs: Seq<u32>, end: End, left: u32, right: u32) -> (
    u32,
    u32,
) {
    if end == End::Exhausted {
        (left, right)
    } else {
        (
            crate::float_bits::finite_or_zero(register_value(regs, prog.spl0_reg as int)),
            crate::float_bits::finite_or_zero(register_value(regs, prog.spl1_reg as int)),
        )
    }
}

/// Reads the two samples of a frame back.
pub fn read_frame(prog: &Program, regs: &Vec<u32>, end: End, left: u32, right: u32) -> (r: (u32, u32))
    ensures
        r == frame_after(*prog, regs@, end, left, right),
{
    if end == End::Exhausted {
        return (left, right);
    }
    let a: usize = prog.spl0_reg as usize;
    let b: usize = prog.spl1_reg as usize;
    let l: u32 = if a < regs.len() {
        guard(regs[a])
    } else {
        0
    };
    let r: u32 = if b < regs.len() {
        guard(regs[b])
    } else {
        0
    };
    (l, r)
}

/// The arithmetic `f` always yields what `g` says.
pub open spec fn computes<F: Fn(Request, u32, u32) -> u32>(
    f: F,
    g: spec_fn(Request, u32, u32) -> u32,
) -> bool {
    forall|what: Request, a: u32, b: u32, v: u32|
        #[trigger] call_ensures(f, (what, a, b), v) ==> v == g(what, a, b)
}

/// The state a section starts in.
pub open spec fn start(regs: Seq<u32>, budget: u32) -> State {
    State { pc: 0, stack: Seq::empty(), regs, budget: budget as int }
}

/// Runs a section to its end, asking `f` for arithmetic; the result says how the run ended and
/// what is left of the budget.
pub fn run_section<F: Fn(Request, u32, u32) -> u32>(
    ops: &Vec<Op>,
    machine: &mut Machine,
    regs: &mut Vec<u32>,
    budget: u32,
    f: &F,
) -> (r: (End, u32))
    requires
        forall|what: Request, a: u32, b: u32| #[trigger] call_requires(*f, (what, a, b)),
    ensures
        forall|g: spec_fn(Request, u32, u32) -> u32| #[trigger]
            computes(*f, g) ==> {
                let (end, t) = run(
                    crate::script::compiler::op_views(ops@),
                    start(old(regs)@, budget),
                    g,
                );
                r.0 == end && r.1 == t.budget && final(regs)@ == t.regs
            },
        final(regs)@.len() == old(regs)@.len(),
{
    let ghost views = crate::script::compiler::op_views(ops@);
    machine.restart(budget);
    loop
        invariant
            forall|what: Request, a: u32, b: u32| #[trigger] call_requires(*f, (what, a, b)),
            views == crate::script::compiler::op_views(ops@),
            machine.state(regs@).stack.len() <= STACK_CAP,
            regs@.len() == old(regs)@.len(),
            forall|g: spec_fn(Request, u32, u32) -> u32| #[trigger]
                computes(*f, g) ==> run(views, machine.state(regs@), g) == run(
                    views,
                    start(old(regs)@, budget),
                    g,
                ),
        decreases machine.budget,
    {
        let ghost before = machine.state(regs@);
        proof {
            law_budget_bounds_a_run(views, before);
            law_stack_and_registers_keep_their_size(views, before, 0);
        }
        match machine.advance(ops, regs) {
            Step::Done(end) => {
                return (end, machine.budget());
            },
            Step::Ask(what, a, b) => {
                let ghost waiting = machine.state(regs@);
                let v: u32 = f(what, a, b);
                machine.resume(ops, v);
                assert(machine.state(regs@) == resumed(views, waiting, v));
                assert forall|g: spec_fn(Request, u32, u32) -> u32| #[trigger]
                    computes(*f, g) implies run(views, machine.state(regs@), g) == run(
                    views,
                    start(old(regs)@, budget),
                    g,
                ) by {
                    assert(call_ensures(*f, (what, a, b), v));
                    assert(run(views, before, g) == run(views, start(old(regs)@, budget), g));
                }
            },
        }
    }
}

/// Runs `@init`.
pub fn run_init<F: Fn(Request, u32, u32) -> u32>(
    prog: &Program,
    machine: &mut Machine,
    regs: &mut Vec<u32>,
    budget: u32,
    f: &F,
)
    requires
        forall|what: Request, a: u32, b: u32| #[trigger] call_requires(*f, (what, a, b)),
    ensures
        forall|g: spec_fn(Request, u32, u32) -> u32| #[trigger]
            computes(*f, g) ==> final(regs)@ == run(
                prog@.init,
                start(old(regs)@, budget),
                g,
            ).1.regs,
{
    run_section(&prog.init, machine, regs, budget, f);
}

/// What `@sample` leaves of a frame: the registers, the two samples and the budget. With nothing
/// left of the budget all stays as it was.
pub struct FrameRun {
    pub regs: Seq<u32>,
    pub left: u32,
    pub right: u32,
    pub budget: u32,
}

/// One frame through `@sample`.
pub open spec fn frame_run(
    prog: Program,
    regs: Seq<u32>,
    left: u32,
    right: u32,
    budget: u32,
    g: spec_fn(Request, u32, u32) -> u32,
) -> FrameRun {
    if budget == 0 {
        FrameRun { regs, left, right, budget }
    } else {
        let loaded = register_set(
            register_set(regs, prog.spl0_reg as int, left),
            prog.spl1_reg as int,
            right,
        );
        let (end, t) = run(prog@.sample, start(loaded, budget), g);
        let (l, r) = frame_after(prog, t.regs, end, left, right);
        FrameRun { regs: t.regs, left: l, right: r, budget: t.budget as u32 }
    }
}

/// Runs `@sample` for one frame, at the cost of the shared budget.
pub fn run_sample<F: Fn(Request, u32, u32) -> u32>(
    prog: &Program,
    machine: &mut Machine,
    regs: &mut Vec<u32>,
    spl: (u32, u32),
    budget: &mut u32,
    f: &F,
) -> (r: (u32, u32))
    requires
        forall|what: Request, a: u32, b: u32| #[trigger] call_requires(*f, (what, a, b)),
    ensures
        forall|g: spec_fn(Request, u32, u32) -> u32| #[trigger]
            computes(*f, g) ==> frame_run(*prog, old(regs)@, spl.0, spl.1, *old(budget), g) == (
            FrameRun { regs: final(regs)@, left: r.0, right: r.1, budget: *final(budget) }),
        *old(budget) == 0 ==> r == spl && *final(budget) == 0 && final(regs)@ == old(regs)@,
        final(regs)@.len() == old(regs)@.len(),
{
    if *budget == 0 {
        return spl;
    }
    load_frame(prog, regs, spl.0, spl.1);
    let (end, left) = run_section(&prog.sample, machine, regs, *budget, f);
    *budget = left;
    read_frame(prog, regs, end, spl.0, spl.1)
}

} // verus!
