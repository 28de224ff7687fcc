//! What a compiled script computes: the value of every expression is the one that its operators and
//! functions give, and an assignment changes its variable and no other.
//!
//! Scripts without `while` and `loop` are covered; such a script always comes to its end, and how many
//! instructions it takes is known in front.

use vstd::prelude::*;
use crate::script::compiler::{Builtin, NumView, OpView, Program, ProgramView, Scope};
use crate::script::parser::{AssignOp, AstView, BinOp, Const, ExprView, StmtView, UnOp};
use crate::script::vm::{Effect, End, Request, State};

verus! {

/// One for true, zero for false.
pub open spec fn said(b: bool) -> u32 {
    if b {
        0x3f80_0000
    } else {
        0
    }
}

/// What a binary operator makes of its operands. What is not finite becomes zero, and operands within
/// 0.00001 of each other are equal.
pub open spec fn binary_value(
    op: BinOp,
    x: u32,
    y: u32,
    f: spec_fn(Request, u32, u32) -> u32,
) -> u32 {
    let d = f(Request::Sub, x, y);
    match op {
        BinOp::Add => crate::float_bits::finite_or_zero(f(Request::Add, x, y)),
        BinOp::Sub => crate::float_bits::finite_or_zero(d),
        BinOp::Mul => crate::float_bits::finite_or_zero(f(Request::Mul, x, y)),
        BinOp::Div => crate::float_bits::finite_or_zero(f(Request::Div, x, y)),
        BinOp::Mod => crate::float_bits::finite_or_zero(f(Request::Mod, x, y)),
        BinOp::Pow => crate::float_bits::finite_or_zero(f(Request::Pow, x, y)),
        BinOp::Eq => said(
            !crate::float_bits::undefined(d) && crate::float_bits::magnitude(d) < 0x3727_c5ac,
        ),
        BinOp::Ne => said(
            !crate::float_bits::undefined(d) && crate::float_bits::magnitude(d) >= 0x3727_c5ac,
        ),
        BinOp::Lt => said(crate::float_bits::less(x, y)),
        BinOp::Le => said(crate::float_bits::at_most(x, y)),
        BinOp::Gt => said(crate::float_bits::less(y, x)),
        BinOp::Ge => said(crate::float_bits::at_most(y, x)),
        BinOp::And => said(holds(x) && holds(y)),
        BinOp::Or => said(holds(x) || holds(y)),
    }
}

/// A value that counts as true: it is finite and not zero.
pub open spec fn holds(v: u32) -> bool {
    crate::float_bits::finite(v) && !crate::dsp::numbers::zero(v)
}

/// What a function makes of its arguments.
pub open spec fn call_value(
    name: Seq<char>,
    vs: Seq<u32>,
    f: spec_fn(Request, u32, u32) -> u32,
) -> u32 {
    match crate::script::compiler::builtin_named(name) {
        None => 0,
        Some(Builtin::Abs) => crate::float_bits::finite_or_zero(
            crate::float_bits::magnitude(vs[0]) as u32,
        ),
        Some(Builtin::Sign) => if crate::float_bits::less(0, vs[0]) {
            0x3f80_0000
        } else if crate::float_bits::less(vs[0], 0) {
            0xbf80_0000
        } else {
            0
        },
        Some(b) => crate::float_bits::finite_or_zero(
            if vs.len() == 2 {
                f(Request::Call(b), vs[0], vs[1])
            } else {
                f(Request::Call(b), vs[0], 0)
            },
        ),
    }
}

/// The value of an expression, given those of its variables and its numerals.
pub open spec fn value(
    e: ExprView,
    env: spec_fn(Seq<char>) -> u32,
    num: spec_fn(Seq<char>) -> u32,
    f: spec_fn(Request, u32, u32) -> u32,
) -> u32
    decreases e,
{
    match e {
        ExprView::Num(n) => num(n),
        ExprView::Const(Const::Pi) => 0x4049_0fdb,
        ExprView::Const(Const::E) => 0x402d_f854,
        ExprView::Var(name) => env(name),
        ExprView::Unary(UnOp::Neg, a) => crate::float_bits::finite_or_zero(
            crate::float_bits::negated(value(*a, env, num, f)),
        ),
        ExprView::Unary(UnOp::Not, a) => said(!holds(value(*a, env, num, f))),
        ExprView::Binary(op, a, b) => binary_value(
            op,
            value(*a, env, num, f),
            value(*b, env, num, f),
            f,
        ),
        ExprView::Call(name, args) => call_value(name, values(args, env, num, f), f),
        ExprView::If(c, t, o) => if holds(value(*c, env, num, f)) {
            value(*t, env, num, f)
        } else {
            value(*o, env, num, f)
        },
        ExprView::While(_, _) | ExprView::Loop(_, _) => 0,
    }
}

/// The values of expressions.
pub open spec fn values(
    es: Seq<ExprView>,
    env: spec_fn(Seq<char>) -> u32,
    num: spec_fn(Seq<char>) -> u32,
    f: spec_fn(Request, u32, u32) -> u32,
) -> Seq<u32>
    decreases es,
{
    if es.len() == 0 {
        Seq::empty()
    } else {
        values(es.drop_last(), env, num, f).push(value(es.last(), env, num, f))
    }
}

/// How many instructions an expression takes.
pub open spec fn steps(
    e: ExprView,
    env: spec_fn(Seq<char>) -> u32,
    num: spec_fn(Seq<char>) -> u32,
    f: spec_fn(Request, u32, u32) -> u32,
) -> nat
    decreases e,
{
    match e {
        ExprView::Num(_) | ExprView::Const(_) | ExprView::Var(_) => 1,
        ExprView::Unary(_, a) => steps(*a, env, num, f) + 1,
        ExprView::Binary(_, a, b) => steps(*a, env, num, f) + steps(*b, env, num, f) + 1,
        ExprView::Call(_, args) => steps_of_all(args, env, num, f) + 1,
        ExprView::If(c, t, o) => steps(*c, env, num, f) + 1 + (if holds(value(*c, env, num, f)) {
            steps(*t, env, num, f) + 1
        } else {
            steps(*o, env, num, f)
        }),
        ExprView::While(_, _) | ExprView::Loop(_, _) => 0,
    }
}

/// How many instructions expressions take.
pub open spec fn steps_of_all(
    es: Seq<ExprView>,
    env: spec_fn(Seq<char>) -> u32,
    num: spec_fn(Seq<char>) -> u32,
    f: spec_fn(Request, u32, u32) -> u32,
) -> nat
    decreases es,
{
    if es.len() == 0 {
        0
    } else {
        steps_of_all(es.drop_last(), env, num, f) + steps(es.last(), env, num, f)
    }
}

/// An expression without `while` and `loop`.
pub open spec fn straight(e: ExprView) -> bool
    decreases e,
{
    match e {
        ExprView::Num(_) | ExprView::Const(_) | ExprView::Var(_) => true,
        ExprView::Unary(_, a) => straight(*a),
        ExprView::Binary(_, a, b) => straight(*a) && straight(*b),
        ExprView::Call(_, args) => all_straight(args),
        ExprView::If(c, t, o) => straight(*c) && straight(*t) && straight(*o),
        ExprView::While(_, _) | ExprView::Loop(_, _) => false,
    }
}

/// Expressions without `while` and `loop`.
pub open spec fn all_straight(es: Seq<ExprView>) -> bool
    decreases es,
{
    es.len() == 0 || all_straight(es.drop_last()) && straight(es.last())
}

/// One instruction with its arithmetic done; a run that has come to its end has none.
spec fn tick(
    ops: Seq<OpView>,
    s: State,
    f: spec_fn(Request, u32, u32) -> u32,
) -> Option<State> {
    if !(0 <= s.pc < ops.len()) || s.budget <= 0 {
        None
    } else {
        match crate::script::vm::effect(
            ops[s.pc],
            State { pc: s.pc + 1, budget: s.budget - 1, ..s },
            ops.len() as int,
        ) {
            Effect::Go(t) => Some(t),
            Effect::Stop(_, _) => None,
            Effect::Wait(what, a, b, t) => Some(
                crate::script::vm::resumed(ops, t, f(what, a, b)),
            ),
        }
    }
}

proof fn lemma_tick(ops: Seq<OpView>, s: State, t: State, f: spec_fn(Request, u32, u32) -> u32)
    requires
        tick(ops, s, f) == Some(t),
    ensures
        crate::script::vm::run(ops, s, f) == crate::script::vm::run(ops, t, f),
{
    let behind = State { pc: s.pc + 1, budget: s.budget - 1, ..s };
    match crate::script::vm::effect(ops[s.pc], behind, ops.len() as int) {
        Effect::Go(next) => {
            assert(next.budget == s.budget - 1);
            crate::script::vm::law_budget_bounds_a_run(ops, next);
            assert(crate::script::vm::advance(ops, s) == crate::script::vm::advance(ops, next));
        },
        Effect::Stop(_, _) => {},
        Effect::Wait(_, _, _, next) => {
            assert(next.budget == s.budget - 1);
        },
    }
}

/// Instructions stand in a section from a place on, with something behind them.
pub open spec fn stands(ops: Seq<OpView>, at: int, code: Seq<OpView>) -> bool {
    &&& 0 <= at
    &&& at + code.len() < ops.len()
    &&& forall|i: int| 0 <= i < code.len() ==> #[trigger] ops[at + i] == code[i]
}

/// The registers hold the values of the variables.
pub open spec fn agrees(regs: Seq<u32>, scope: Scope, env: spec_fn(Seq<char>) -> u32) -> bool {
    forall|name: Seq<char>|
        (#[trigger] crate::script::compiler::lookup(scope.bound, name)) matches Some(r) ==> 0 <= r
            < regs.len() && regs[r] == env(name)
}

/// Every numeral of a section has its value.
pub open spec fn numerals(
    ops: Seq<OpView>,
    num: spec_fn(Seq<char>) -> u32,
    f: spec_fn(Request, u32, u32) -> u32,
) -> bool {
    forall|i: int, n: Seq<char>|
        #![trigger ops[i], num(n)]
        0 <= i < ops.len() && ops[i] == OpView::PushConst(NumView::Text(n)) ==> f(
            Request::Number(i as usize),
            0,
            0,
        ) == num(n)
}

/// The scope that a section ends with, in which every name has one register.
pub open spec fn closing(scope: Scope, last: Scope) -> bool {
    crate::script::registers::kept(scope, last) && crate::script::registers::apart(last)
}

proof fn lemma_register(scope: Scope, name: Seq<char>, last: Scope)
    requires
        closing(crate::script::compiler::with_name(scope, name), last),
    ensures
        crate::script::compiler::lookup(last.bound, name) == Some(
            crate::script::compiler::register(scope, name),
        ),
{
    let named = crate::script::compiler::with_name(scope, name);
    crate::script::compiler::lemma_lookup(scope.bound, name);
    let r = crate::script::compiler::register(scope, name);
    let i = match crate::script::compiler::lookup(scope.bound, name) {
        Some(_) => choose|i: int|
            0 <= i < scope.bound.len() && (#[trigger] scope.bound[i]).0 == name && scope.bound[i].1
                == r,
        None => scope.bound.len() as int,
    };
    assert(named.bound[i] == (name, r));
    assert(last.bound[i] == (name, r));
    crate::script::registers::lemma_lookup_bound(last, i);
}

/// Where a run gets to behind an expression.
spec fn behind(s: State, at: int, v: u32, spent: nat) -> State {
    State { pc: at, stack: s.stack.push(v), budget: s.budget - spent, ..s }
}

/// What an expression needs to run at a place of a section.
spec fn ready(
    e: ExprView,
    scope: Scope,
    at: int,
    ops: Seq<OpView>,
    s: State,
    last: Scope,
    env: spec_fn(Seq<char>) -> u32,
    num: spec_fn(Seq<char>) -> u32,
    f: spec_fn(Request, u32, u32) -> u32,
) -> bool {
    let code = crate::script::compiler::expr_code(e, scope, at);
    &&& straight(e)
    &&& code.error is None
    &&& stands(ops, at, code.ops)
    &&& closing(code.scope, last)
    &&& agrees(s.regs, last, env)
    &&& numerals(ops, num, f)
    &&& s.pc == at
    &&& s.stack.len() + crate::script::depth::room(e) <= crate::script::vm::STACK_CAP
    &&& s.budget >= steps(e, env, num, f)
}

proof fn lemma_kept(a: Scope, b: Scope, c: Scope)
    requires
        crate::script::registers::kept(a, b),
        crate::script::registers::kept(b, c),
    ensures
        crate::script::registers::kept(a, c),
{
    assert forall|i: int| 0 <= i < a.bound.len() implies #[trigger] c.bound[i] == a.bound[i] by {
        assert(b.bound[i] == a.bound[i]);
    }
}

proof fn lemma_leaf(
    e: ExprView,
    scope: Scope,
    at: int,
    ops: Seq<OpView>,
    s: State,
    last: Scope,
    env: spec_fn(Seq<char>) -> u32,
    num: spec_fn(Seq<char>) -> u32,
    f: spec_fn(Request, u32, u32) -> u32,
)
    requires
        ready(e, scope, at, ops, s, last, env, num, f),
        e is Num || e is Const || e is Var,
    ensures
        crate::script::vm::run(ops, s, f) == crate::script::vm::run(
            ops,
            behind(s, at + 1, value(e, env, num, f), 1),
            f,
        ),
        crate::script::compiler::expr_code(e, scope, at).ops.len() == 1,
{
    let code = crate::script::compiler::expr_code(e, scope, at);
    assert(ops[at + 0] == code.ops[0]);
    let t = behind(s, at + 1, value(e, env, num, f), 1);
    match e {
        ExprView::Num(n) => {
            assert(ops[at] == OpView::PushConst(NumView::Text(n)));
            assert(f(Request::Number(at as usize), 0, 0) == num(n));
        },
        ExprView::Var(name) => {
            lemma_register(scope, name, last);
            let r = crate::script::compiler::register(scope, name);
            assert(s.regs[r] == env(name));
        },
        _ => {},
    }
    assert(tick(ops, s, f) == Some(t));
    lemma_tick(ops, s, t, f);
}

proof fn lemma_unary_end(
    op: UnOp,
    ops: Seq<OpView>,
    s: State,
    x: u32,
    f: spec_fn(Request, u32, u32) -> u32,
)
    requires
        0 <= s.pc < ops.len(),
        ops[s.pc] == (match op {
            UnOp::Neg => OpView::Neg,
            UnOp::Not => OpView::Not,
        }),
        s.stack.len() < crate::script::vm::STACK_CAP,
        s.budget > 0,
    ensures
        crate::script::vm::run(ops, State { stack: s.stack.push(x), ..s }, f)
            == crate::script::vm::run(
            ops,
            State {
                pc: s.pc + 1,
                stack: s.stack.push(
                    match op {
                        UnOp::Neg => crate::float_bits::finite_or_zero(
                            crate::float_bits::negated(x),
                        ),
                        UnOp::Not => said(!holds(x)),
                    },
                ),
                budget: s.budget - 1,
                ..s
            },
            f,
        ),
{
    let from = State { stack: s.stack.push(x), ..s };
    assert(s.stack.push(x).drop_last() =~= s.stack);
    let v = match op {
        UnOp::Neg => crate::float_bits::finite_or_zero(crate::float_bits::negated(x)),
        UnOp::Not => said(!holds(x)),
    };
    let to = State { pc: s.pc + 1, stack: s.stack.push(v), budget: s.budget - 1, ..s };
    assert(tick(ops, from, f) == Some(to));
    lemma_tick(ops, from, to, f);
}

proof fn lemma_binary_end(
    op: BinOp,
    ops: Seq<OpView>,
    s: State,
    x: u32,
    y: u32,
    f: spec_fn(Request, u32, u32) -> u32,
)
    requires
        0 <= s.pc < ops.len(),
        ops[s.pc] == crate::script::compiler::binary_code(op),
        s.stack.len() + 1 < crate::script::vm::STACK_CAP,
        s.budget > 0,
    ensures
        crate::script::vm::run(ops, State { stack: s.stack.push(x).push(y), ..s }, f)
            == crate::script::vm::run(
            ops,
            State {
                pc: s.pc + 1,
                stack: s.stack.push(binary_value(op, x, y, f)),
                budget: s.budget - 1,
                ..s
            },
            f,
        ),
{
    let from = State { stack: s.stack.push(x).push(y), ..s };
    assert(s.stack.push(x).push(y).drop_last() =~= s.stack.push(x));
    assert(s.stack.push(x).drop_last() =~= s.stack);
    let to = State {
        pc: s.pc + 1,
        stack: s.stack.push(binary_value(op, x, y, f)),
        budget: s.budget - 1,
        ..s
    };
    assert(tick(ops, from, f) == Some(to));
    lemma_tick(ops, from, to, f);
}

proof fn lemma_call_end(
    b: Builtin,
    name: Seq<char>,
    vs: Seq<u32>,
    ops: Seq<OpView>,
    s: State,
    f: spec_fn(Request, u32, u32) -> u32,
)
    requires
        crate::script::compiler::builtin_named(name) == Some(b),
        vs.len() == crate::script::compiler::arity(b),
        0 <= s.pc < ops.len(),
        ops[s.pc] == OpView::Call(b),
        s.stack.len() + vs.len() <= crate::script::vm::STACK_CAP,
        s.budget > 0,
    ensures
        crate::script::vm::run(ops, State { stack: s.stack + vs, ..s }, f)
            == crate::script::vm::run(
            ops,
            State {
                pc: s.pc + 1,
                stack: s.stack.push(call_value(name, vs, f)),
                budget: s.budget - 1,
                ..s
            },
            f,
        ),
{
    let from = State { stack: s.stack + vs, ..s };
    if vs.len() == 2 {
        assert(s.stack + vs =~= s.stack.push(vs[0]).push(vs[1]));
        assert((s.stack + vs).drop_last() =~= s.stack.push(vs[0]));
        assert(s.stack.push(vs[0]).drop_last() =~= s.stack);
    } else {
        assert(s.stack + vs =~= s.stack.push(vs[0]));
        assert((s.stack + vs).drop_last() =~= s.stack);
    }
    let to = State {
        pc: s.pc + 1,
        stack: s.stack.push(call_value(name, vs, f)),
        budget: s.budget - 1,
        ..s
    };
    assert(tick(ops, from, f) == Some(to));
    lemma_tick(ops, from, to, f);
}

proof fn lemma_part(ops: Seq<OpView>, at: int, whole: Seq<OpView>, from: int, part: Seq<OpView>)
    requires
        stands(ops, at, whole),
        0 <= from,
        from + part.len() <= whole.len(),
        forall|i: int| 0 <= i < part.len() ==> #[trigger] whole[from + i] == part[i],
    ensures
        stands(ops, at + from, part),
{
    assert forall|i: int| 0 <= i < part.len() implies #[trigger] ops[at + from + i] == part[i] by {
        assert(ops[at + (from + i)] == whole[from + i]);
    }
}

proof fn lemma_room(e: ExprView)
    requires
        straight(e),
    ensures
        crate::script::depth::room(e) >= 1,
    decreases e,
{
    match e {
        ExprView::Unary(_, a) => {
            lemma_room(*a);
        },
        ExprView::If(c, _, _) => {
            lemma_room(*c);
        },
        _ => {},
    }
}

proof fn lemma_args_room(es: Seq<ExprView>)
    requires
        all_straight(es),
    ensures
        crate::script::depth::args_room(es) >= es.len(),
    decreases es.len(),
{
    if es.len() > 0 {
        lemma_args_room(es.drop_last());
        lemma_room(es.last());
    }
}

/// The run of an expression leaves its value on the stack, and nothing else behind.
#[verifier::spinoff_prover]
#[verifier::rlimit(60)]
proof fn lemma_expr(
    e: ExprView,
    scope: Scope,
    at: int,
    ops: Seq<OpView>,
    s: State,
    last: Scope,
    env: spec_fn(Seq<char>) -> u32,
    num: spec_fn(Seq<char>) -> u32,
    f: spec_fn(Request, u32, u32) -> u32,
)
    requires
        ready(e, scope, at, ops, s, last, env, num, f),
    ensures
        crate::script::vm::run(ops, s, f) == crate::script::vm::run(
            ops,
            behind(
                s,
                at + crate::script::compiler::expr_code(e, scope, at).ops.len(),
                value(e, env, num, f),
                steps(e, env, num, f),
            ),
            f,
        ),
    decreases e, 1int,
{
    let code = crate::script::compiler::expr_code(e, scope, at);
    match e {
        ExprView::Num(_) | ExprView::Const(_) | ExprView::Var(_) => {
            lemma_leaf(e, scope, at, ops, s, last, env, num, f);
        },
        ExprView::Unary(op, a) => {
            let c = crate::script::compiler::expr_code(*a, scope, at);
            lemma_part(ops, at, code.ops, 0, c.ops);
            lemma_expr(*a, scope, at, ops, s, last, env, num, f);
            let n = c.ops.len() as int;
            assert(ops[at + n] == code.ops[n]);
            let t = State { pc: at + n, budget: s.budget - steps(*a, env, num, f), ..s };
            lemma_room(*a);
            lemma_unary_end(op, ops, t, value(*a, env, num, f), f);
        },
        ExprView::Binary(op, a, b) => {
            reveal(crate::script::compiler::binary_joined);
            let c = crate::script::compiler::expr_code(*a, scope, at);
            let d = crate::script::compiler::expr_code(*b, c.scope, at + c.ops.len());
            crate::script::registers::lemma_expr_keeps(*b, c.scope, at + c.ops.len());
            lemma_kept(c.scope, d.scope, last);
            assert(code.ops == c.ops + d.ops + seq![crate::script::compiler::binary_code(op)]);
            lemma_part(ops, at, code.ops, 0, c.ops);
            lemma_part(ops, at, code.ops, c.ops.len() as int, d.ops);
            lemma_expr(*a, scope, at, ops, s, last, env, num, f);
            let (x, y) = (value(*a, env, num, f), value(*b, env, num, f));
            let t = behind(s, at + c.ops.len(), x, steps(*a, env, num, f));
            lemma_expr(*b, c.scope, at + c.ops.len(), ops, t, last, env, num, f);
            let n = c.ops.len() + d.ops.len();
            assert(ops[at + n] == code.ops[n as int]);
            let u = State {
                pc: at + n,
                budget: s.budget - steps(*a, env, num, f) - steps(*b, env, num, f),
                ..s
            };
            lemma_room(*b);
            lemma_binary_end(op, ops, u, x, y, f);
        },
        ExprView::Call(name, args) => {
            reveal(crate::script::compiler::call_joined);
            let c = crate::script::compiler::exprs_code(args, scope, at);
            let b = crate::script::compiler::builtin_named(name)->0;
            assert(code.ops == c.ops + seq![OpView::Call(b)]);
            lemma_part(ops, at, code.ops, 0, c.ops);
            lemma_exprs(args, scope, at, ops, s, last, env, num, f);
            let n = c.ops.len() as int;
            assert(ops[at + n] == code.ops[n]);
            let t = State { pc: at + n, budget: s.budget - steps_of_all(args, env, num, f), ..s };
            lemma_args_room(args);
            lemma_call_end(b, name, values(args, env, num, f), ops, t, f);
        },
        ExprView::If(c, t, o) => {
            lemma_if(*c, *t, *o, e, scope, at, ops, s, last, env, num, f);
        },
        ExprView::While(_, _) | ExprView::Loop(_, _) => {},
    }
}

#[verifier::rlimit(30)]
proof fn lemma_if(
    c: ExprView,
    t: ExprView,
    o: ExprView,
    e: ExprView,
    scope: Scope,
    at: int,
    ops: Seq<OpView>,
    s: State,
    last: Scope,
    env: spec_fn(Seq<char>) -> u32,
    num: spec_fn(Seq<char>) -> u32,
    f: spec_fn(Request, u32, u32) -> u32,
)
    requires
        e == ExprView::If(Box::new(c), Box::new(t), Box::new(o)),
        ready(e, scope, at, ops, s, last, env, num, f),
    ensures
        crate::script::vm::run(ops, s, f) == crate::script::vm::run(
            ops,
            behind(
                s,
                at + crate::script::compiler::expr_code(e, scope, at).ops.len(),
                value(e, env, num, f),
                steps(e, env, num, f),
            ),
            f,
        ),
    decreases e, 0int,
{
    reveal(crate::script::compiler::if_joined);
    let code = crate::script::compiler::expr_code(e, scope, at);
    let cc = crate::script::compiler::expr_code(c, scope, at);
    let t_at = at + cc.ops.len() + 1;
    let tc = crate::script::compiler::expr_code(t, cc.scope, t_at);
    let o_at = t_at + tc.ops.len() + 1;
    let oc = crate::script::compiler::expr_code(o, tc.scope, o_at);
    crate::script::registers::lemma_expr_keeps(t, cc.scope, t_at);
    crate::script::registers::lemma_expr_keeps(o, tc.scope, o_at);
    lemma_kept(tc.scope, oc.scope, last);
    lemma_kept(cc.scope, tc.scope, last);
    let n = cc.ops.len() as int;
    let m = n + 1 + tc.ops.len();
    assert(code.ops == (cc.ops.push(OpView::JumpIfFalse(o_at)) + tc.ops).push(
        OpView::Jump(o_at + oc.ops.len()),
    ) + oc.ops);
    lemma_part(ops, at, code.ops, 0, cc.ops);
    lemma_part(ops, at, code.ops, n + 1, tc.ops);
    lemma_part(ops, at, code.ops, m + 1, oc.ops);
    assert(ops[at + n] == code.ops[n]);
    assert(ops[at + m] == code.ops[m]);
    lemma_expr(c, scope, at, ops, s, last, env, num, f);
    let x = value(c, env, num, f);
    let met = behind(s, at + n, x, steps(c, env, num, f));
    assert(s.stack.push(x).drop_last() =~= s.stack);
    let spent = steps(c, env, num, f) + 1;
    if holds(x) {
        let chosen = State { pc: t_at, budget: s.budget - spent, ..s };
        assert(tick(ops, met, f) == Some(chosen));
        lemma_tick(ops, met, chosen, f);
        lemma_expr(t, cc.scope, t_at, ops, chosen, last, env, num, f);
        let done = behind(chosen, at + m, value(t, env, num, f), steps(t, env, num, f));
        let over = State { pc: o_at + oc.ops.len(), budget: done.budget - 1, ..done };
        assert(tick(ops, done, f) == Some(over));
        lemma_tick(ops, done, over, f);
    } else {
        let chosen = State { pc: o_at, budget: s.budget - spent, ..s };
        assert(tick(ops, met, f) == Some(chosen));
        lemma_tick(ops, met, chosen, f);
        lemma_expr(o, tc.scope, o_at, ops, chosen, last, env, num, f);
    }
}

proof fn lemma_exprs(
    es: Seq<ExprView>,
    scope: Scope,
    at: int,
    ops: Seq<OpView>,
    s: State,
    last: Scope,
    env: spec_fn(Seq<char>) -> u32,
    num: spec_fn(Seq<char>) -> u32,
    f: spec_fn(Request, u32, u32) -> u32,
)
    requires
        all_straight(es),
        crate::script::compiler::exprs_code(es, scope, at).error is None,
        stands(ops, at, crate::script::compiler::exprs_code(es, scope, at).ops),
        closing(crate::script::compiler::exprs_code(es, scope, at).scope, last),
        agrees(s.regs, last, env),
        numerals(ops, num, f),
        s.pc == at,
        s.stack.len() + crate::script::depth::args_room(es) <= crate::script::vm::STACK_CAP,
        s.budget >= steps_of_all(es, env, num, f),
    ensures
        crate::script::vm::run(ops, s, f) == crate::script::vm::run(
            ops,
            State {
                pc: at + crate::script::compiler::exprs_code(es, scope, at).ops.len(),
                stack: s.stack + values(es, env, num, f),
                budget: s.budget - steps_of_all(es, env, num, f),
                ..s
            },
            f,
        ),
        values(es, env, num, f).len() == es.len(),
    decreases es, 1int,
{
    let code = crate::script::compiler::exprs_code(es, scope, at);
    if es.len() == 0 {
        assert(s.stack + values(es, env, num, f) =~= s.stack);
    } else {
        let (less, e) = (es.drop_last(), es.last());
        let c = crate::script::compiler::exprs_code(less, scope, at);
        let d = crate::script::compiler::expr_code(e, c.scope, at + c.ops.len());
        crate::script::registers::lemma_expr_keeps(e, c.scope, at + c.ops.len());
        lemma_kept(c.scope, d.scope, last);
        assert(code.ops == c.ops + d.ops);
        lemma_part(ops, at, code.ops, 0, c.ops);
        lemma_part(ops, at, code.ops, c.ops.len() as int, d.ops);
        lemma_exprs(less, scope, at, ops, s, last, env, num, f);
        let t = State {
            pc: at + c.ops.len(),
            stack: s.stack + values(less, env, num, f),
            budget: s.budget - steps_of_all(less, env, num, f),
            ..s
        };
        lemma_expr(e, c.scope, at + c.ops.len(), ops, t, last, env, num, f);
        assert((s.stack + values(less, env, num, f)).push(value(e, env, num, f)) =~= s.stack
            + values(es, env, num, f));
    }
}

/// A statement without `while` and `loop`.
pub open spec fn straight_stmt(s: StmtView) -> bool {
    match s {
        StmtView::Assign { name, op, value } => straight(value),
        StmtView::Expr(e) => straight(e),
    }
}

/// The binary operator that a compound assignment applies.
pub open spec fn applied(op: AssignOp) -> Option<BinOp> {
    match op {
        AssignOp::Eq => None,
        AssignOp::PlusEq => Some(BinOp::Add),
        AssignOp::MinusEq => Some(BinOp::Sub),
        AssignOp::StarEq => Some(BinOp::Mul),
        AssignOp::SlashEq => Some(BinOp::Div),
    }
}

/// The variables behind a statement: an assignment gives its variable the value of the expression, or
/// what its operator makes of the old value and that one, and leaves all others as they are.
pub open spec fn after_stmt(
    s: StmtView,
    env: spec_fn(Seq<char>) -> u32,
    num: spec_fn(Seq<char>) -> u32,
    f: spec_fn(Request, u32, u32) -> u32,
) -> spec_fn(Seq<char>) -> u32 {
    match s {
        StmtView::Assign { name, op, value: e } => {
            let v = value(e, env, num, f);
            let new = match applied(op) {
                None => v,
                Some(b) => binary_value(b, env(name), v, f),
            };
            |n: Seq<char>|
                if n == name {
                    new
                } else {
                    env(n)
                }
        },
        StmtView::Expr(_) => env,
    }
}

/// How many instructions a statement takes.
pub open spec fn stmt_steps(
    s: StmtView,
    env: spec_fn(Seq<char>) -> u32,
    num: spec_fn(Seq<char>) -> u32,
    f: spec_fn(Request, u32, u32) -> u32,
) -> nat {
    match s {
        StmtView::Assign { name, op, value: e } => if op == AssignOp::Eq {
            steps(e, env, num, f) + 1
        } else {
            steps(e, env, num, f) + 3
        },
        StmtView::Expr(e) => steps(e, env, num, f) + 1,
    }
}

/// The variables behind statements, one after another.
pub open spec fn after_stmts(
    ss: Seq<StmtView>,
    env: spec_fn(Seq<char>) -> u32,
    num: spec_fn(Seq<char>) -> u32,
    f: spec_fn(Request, u32, u32) -> u32,
) -> spec_fn(Seq<char>) -> u32
    decreases ss.len(),
{
    if ss.len() == 0 {
        env
    } else {
        after_stmt(ss.last(), after_stmts(ss.drop_last(), env, num, f), num, f)
    }
}

/// How many instructions statements take, one after another.
pub open spec fn stmts_steps(
    ss: Seq<StmtView>,
    env: spec_fn(Seq<char>) -> u32,
    num: spec_fn(Seq<char>) -> u32,
    f: spec_fn(Request, u32, u32) -> u32,
) -> nat
    decreases ss.len(),
{
    if ss.len() == 0 {
        0
    } else {
        stmts_steps(ss.drop_last(), env, num, f) + stmt_steps(
            ss.last(),
            after_stmts(ss.drop_last(), env, num, f),
            num,
            f,
        )
    }
}

/// Statements without `while` and `loop`.
pub open spec fn all_straight_stmts(ss: Seq<StmtView>) -> bool {
    forall|i: int| 0 <= i < ss.len() ==> straight_stmt(#[trigger] ss[i])
}

/// Instructions of statements stand in a section from a place on.
spec fn stands_whole(ops: Seq<OpView>, at: int, code: Seq<OpView>) -> bool {
    &&& 0 <= at
    &&& at + code.len() <= ops.len()
    &&& forall|i: int| 0 <= i < code.len() ==> #[trigger] ops[at + i] == code[i]
}

proof fn lemma_inner(ops: Seq<OpView>, at: int, whole: Seq<OpView>, part: Seq<OpView>)
    requires
        stands_whole(ops, at, whole),
        part.len() < whole.len(),
        forall|i: int| 0 <= i < part.len() ==> #[trigger] whole[i] == part[i],
    ensures
        stands(ops, at, part),
{
    assert forall|i: int| 0 <= i < part.len() implies #[trigger] ops[at + i] == part[i] by {
        assert(ops[at + i] == whole[i]);
    }
}

/// No name has the register.
pub open spec fn nameless(r: int, scope: Scope) -> bool {
    forall|i: int| 0 <= i < scope.bound.len() ==> (#[trigger] scope.bound[i]).1 != r
}

/// Registers without a name hold what they held.
spec fn nameless_kept(before: Seq<u32>, after: Seq<u32>, scope: Scope) -> bool {
    forall|r: int| 0 <= r < before.len() && nameless(r, scope) ==> after[r] == #[trigger] before[r]
}

proof fn lemma_store(
    regs: Seq<u32>,
    last: Scope,
    env: spec_fn(Seq<char>) -> u32,
    name: Seq<char>,
    r: int,
    v: u32,
)
    requires
        agrees(regs, last, env),
        crate::script::registers::apart(last),
        crate::script::compiler::lookup(last.bound, name) == Some(r),
    ensures
        0 <= r < regs.len(),
        nameless_kept(regs, regs.update(r, v), last),
        agrees(
            regs.update(r, v),
            last,
            |n: Seq<char>|
                if n == name {
                    v
                } else {
                    env(n)
                },
        ),
{
    let now = |n: Seq<char>|
        if n == name {
            v
        } else {
            env(n)
        };
    crate::script::compiler::lemma_lookup(last.bound, name);
    assert forall|n: Seq<char>|
        (#[trigger] crate::script::compiler::lookup(last.bound, n)) is Some implies ({
        let q = crate::script::compiler::lookup(last.bound, n)->0;
        0 <= q < regs.len() && regs.update(r, v)[q] == now(n)
    }) by {
        let q = crate::script::compiler::lookup(last.bound, n)->0;
        crate::script::compiler::lemma_lookup(last.bound, n);
        if n != name {
            let i = choose|i: int|
                0 <= i < last.bound.len() && (#[trigger] last.bound[i]).0 == name
                    && last.bound[i].1 == r;
            let j = choose|j: int|
                0 <= j < last.bound.len() && (#[trigger] last.bound[j]).0 == n && last.bound[j].1
                    == q;
            assert(i != j);
            assert(last.bound[i].1 != last.bound[j].1);
        }
    }
}

proof fn lemma_plain_stmt(
    st: StmtView,
    scope: Scope,
    at: int,
    ops: Seq<OpView>,
    s: State,
    last: Scope,
    env: spec_fn(Seq<char>) -> u32,
    num: spec_fn(Seq<char>) -> u32,
    f: spec_fn(Request, u32, u32) -> u32,
) -> (regs: Seq<u32>)
    requires
        straight_stmt(st),
        st matches StmtView::Assign { name, op, value } ==> op == AssignOp::Eq,
        crate::script::compiler::stmt_code(st, scope, at).error is None,
        stands_whole(ops, at, crate::script::compiler::stmt_code(st, scope, at).ops),
        closing(crate::script::compiler::stmt_code(st, scope, at).scope, last),
        agrees(s.regs, last, env),
        numerals(ops, num, f),
        s.pc == at,
        s.stack.len() + crate::script::depth::stmt_room(st) <= crate::script::vm::STACK_CAP,
        s.budget >= stmt_steps(st, env, num, f),
    ensures
        crate::script::vm::run(ops, s, f) == crate::script::vm::run(
            ops,
            State {
                pc: at + crate::script::compiler::stmt_code(st, scope, at).ops.len(),
                regs,
                budget: s.budget - stmt_steps(st, env, num, f),
                ..s
            },
            f,
        ),
        agrees(regs, last, after_stmt(st, env, num, f)),
        regs.len() == s.regs.len(),
        nameless_kept(s.regs, regs, last),
{
    reveal(crate::script::compiler::assign_joined);
    let code = crate::script::compiler::stmt_code(st, scope, at);
    match st {
        StmtView::Assign { name, op, value: e } => {
            let named = crate::script::compiler::with_name(scope, name);
            let c = crate::script::compiler::expr_code(e, named, at);
            let r = crate::script::compiler::register(scope, name);
            crate::script::registers::lemma_expr_keeps(e, named, at);
            lemma_kept(named, c.scope, last);
            lemma_register(scope, name, last);
            assert(code.ops == c.ops + seq![OpView::StoreReg(r)]);
            lemma_inner(ops, at, code.ops, c.ops);
            lemma_expr(e, named, at, ops, s, last, env, num, f);
            let v = value(e, env, num, f);
            let n = c.ops.len() as int;
            assert(ops[at + n] == code.ops[n]);
            lemma_store(s.regs, last, env, name, r, v);
            let met = behind(s, at + n, v, steps(e, env, num, f));
            assert(s.stack.push(v).drop_last() =~= s.stack);
            let regs = s.regs.update(r, v);
            let done = State { pc: at + n + 1, stack: s.stack, regs, budget: met.budget - 1 };
            assert(tick(ops, met, f) == Some(done));
            lemma_tick(ops, met, done, f);
            regs
        },
        StmtView::Expr(e) => {
            let c = crate::script::compiler::expr_code(e, scope, at);
            assert(code.ops == c.ops + seq![OpView::Pop]);
            lemma_inner(ops, at, code.ops, c.ops);
            lemma_expr(e, scope, at, ops, s, last, env, num, f);
            let v = value(e, env, num, f);
            let n = c.ops.len() as int;
            assert(ops[at + n] == code.ops[n]);
            let met = behind(s, at + n, v, steps(e, env, num, f));
            assert(s.stack.push(v).drop_last() =~= s.stack);
            let done = State { pc: at + n + 1, budget: met.budget - 1, ..s };
            assert(tick(ops, met, f) == Some(done));
            lemma_tick(ops, met, done, f);
            s.regs
        },
    }
}

proof fn lemma_stmt(
    st: StmtView,
    scope: Scope,
    at: int,
    ops: Seq<OpView>,
    s: State,
    last: Scope,
    env: spec_fn(Seq<char>) -> u32,
    num: spec_fn(Seq<char>) -> u32,
    f: spec_fn(Request, u32, u32) -> u32,
) -> (regs: Seq<u32>)
    requires
        straight_stmt(st),
        crate::script::compiler::stmt_code(st, scope, at).error is None,
        stands_whole(ops, at, crate::script::compiler::stmt_code(st, scope, at).ops),
        closing(crate::script::compiler::stmt_code(st, scope, at).scope, last),
        agrees(s.regs, last, env),
        numerals(ops, num, f),
        s.pc == at,
        s.stack.len() + crate::script::depth::stmt_room(st) <= crate::script::vm::STACK_CAP,
        s.budget >= stmt_steps(st, env, num, f),
    ensures
        crate::script::vm::run(ops, s, f) == crate::script::vm::run(
            ops,
            State {
                pc: at + crate::script::compiler::stmt_code(st, scope, at).ops.len(),
                regs,
                budget: s.budget - stmt_steps(st, env, num, f),
                ..s
            },
            f,
        ),
        agrees(regs, last, after_stmt(st, env, num, f)),
        regs.len() == s.regs.len(),
        nameless_kept(s.regs, regs, last),
{
    match st {
        StmtView::Assign { name, op, value: e } if op != AssignOp::Eq => {
            let b = applied(op)->0;
            let plain = crate::script::meaning::spelled_out(name, b, e);
            crate::script::meaning::law_compound_assignments_are_short_forms(name, e, scope, at);
            lemma_spelled(name, op, b, e, env, num, f);
            let regs = lemma_plain_stmt(plain, scope, at, ops, s, last, env, num, f);
            assert(after_stmt(plain, env, num, f) =~= after_stmt(st, env, num, f));
            regs
        },
        _ => lemma_plain_stmt(st, scope, at, ops, s, last, env, num, f),
    }
}

proof fn lemma_spelled(
    name: Seq<char>,
    op: AssignOp,
    b: BinOp,
    e: ExprView,
    env: spec_fn(Seq<char>) -> u32,
    num: spec_fn(Seq<char>) -> u32,
    f: spec_fn(Request, u32, u32) -> u32,
)
    requires
        applied(op) == Some(b),
    ensures
        ({
            let st = StmtView::Assign { name, op, value: e };
            let plain = crate::script::meaning::spelled_out(name, b, e);
            &&& stmt_steps(plain, env, num, f) == stmt_steps(st, env, num, f)
            &&& crate::script::depth::stmt_room(plain) == crate::script::depth::stmt_room(st)
            &&& straight_stmt(plain) == straight_stmt(st)
            &&& after_stmt(plain, env, num, f) =~= after_stmt(st, env, num, f)
        }),
{
    reveal_with_fuel(value, 2);
    reveal_with_fuel(steps, 2);
    reveal_with_fuel(straight, 2);
    reveal_with_fuel(crate::script::depth::room, 2);
}

proof fn lemma_stmts(
    ss: Seq<StmtView>,
    scope: Scope,
    at: int,
    ops: Seq<OpView>,
    s: State,
    last: Scope,
    env: spec_fn(Seq<char>) -> u32,
    num: spec_fn(Seq<char>) -> u32,
    f: spec_fn(Request, u32, u32) -> u32,
) -> (regs: Seq<u32>)
    requires
        all_straight_stmts(ss),
        crate::script::compiler::stmts_code(ss, scope, at).error is None,
        stands_whole(ops, at, crate::script::compiler::stmts_code(ss, scope, at).ops),
        closing(crate::script::compiler::stmts_code(ss, scope, at).scope, last),
        agrees(s.regs, last, env),
        numerals(ops, num, f),
        s.pc == at,
        s.stack.len() + crate::script::depth::stmts_room(ss) <= crate::script::vm::STACK_CAP,
        s.budget >= stmts_steps(ss, env, num, f),
    ensures
        crate::script::vm::run(ops, s, f) == crate::script::vm::run(
            ops,
            State {
                pc: at + crate::script::compiler::stmts_code(ss, scope, at).ops.len(),
                regs,
                budget: s.budget - stmts_steps(ss, env, num, f),
                ..s
            },
            f,
        ),
        agrees(regs, last, after_stmts(ss, env, num, f)),
        regs.len() == s.regs.len(),
        nameless_kept(s.regs, regs, last),
    decreases ss.len(),
{
    let code = crate::script::compiler::stmts_code(ss, scope, at);
    if ss.len() == 0 {
        s.regs
    } else {
        let (less, st) = (ss.drop_last(), ss.last());
        assert(straight_stmt(ss[ss.len() - 1]));
        assert forall|i: int| 0 <= i < less.len() implies straight_stmt(#[trigger] less[i]) by {
            assert(less[i] == ss[i]);
        }
        let c = crate::script::compiler::stmts_code(less, scope, at);
        let n = c.ops.len() as int;
        let d = crate::script::compiler::stmt_code(st, c.scope, at + n);
        crate::script::registers::lemma_stmt_keeps(st, c.scope, at + n);
        lemma_kept(c.scope, d.scope, last);
        assert(code.ops == c.ops + d.ops);
        assert forall|i: int| 0 <= i < c.ops.len() implies #[trigger] ops[at + i] == c.ops[i] by {
            assert(ops[at + i] == code.ops[i]);
        }
        assert forall|i: int| 0 <= i < d.ops.len() implies #[trigger] ops[at + n + i]
            == d.ops[i] by {
            assert(ops[at + (n + i)] == code.ops[n + i]);
        }
        let regs = lemma_stmts(less, scope, at, ops, s, last, env, num, f);
        let middle = after_stmts(less, env, num, f);
        let t = State { pc: at + n, regs, budget: s.budget - stmts_steps(less, env, num, f), ..s };
        lemma_stmt(st, c.scope, at + n, ops, t, last, middle, num, f)
    }
}

/// The scope that a compiled script ends with.
pub open spec fn last_scope(ast: AstView) -> Scope {
    crate::script::compiler::stmts_code(
        ast.sample,
        crate::script::compiler::stmts_code(
            ast.init,
            crate::script::compiler::first_scope(),
            0,
        ).scope,
        0,
    ).scope
}

/// A compiled section computes what its statements say: where the registers hold the values of the
/// variables, the stack and the budget suffice and there is neither `while` nor `loop`, the section
/// comes to its end, and then the registers hold the values that the statements give the variables.
pub proof fn law_scripts_compute_what_they_say(
    ast: AstView,
    sample: bool,
    regs: Seq<u32>,
    budget: int,
    env: spec_fn(Seq<char>) -> u32,
    num: spec_fn(Seq<char>) -> u32,
    f: spec_fn(Request, u32, u32) -> u32,
)
    requires
        crate::script::compiler::script_code(ast) is Ok,
        agrees(regs, last_scope(ast), env),
        ({
            let p = crate::script::compiler::script_code(ast)->Ok_0;
            let (ops, ss) = if sample {
                (p.sample, ast.sample)
            } else {
                (p.init, ast.init)
            };
            &&& all_straight_stmts(ss)
            &&& numerals(ops, num, f)
            &&& crate::script::depth::stmts_room(ss) <= crate::script::vm::STACK_CAP
            &&& budget >= stmts_steps(ss, env, num, f)
        }),
    ensures
        ({
            let p = crate::script::compiler::script_code(ast)->Ok_0;
            let (ops, ss) = if sample {
                (p.sample, ast.sample)
            } else {
                (p.init, ast.init)
            };
            let start = State { pc: 0, stack: Seq::empty(), regs, budget };
            let (end, t) = crate::script::vm::run(ops, start, f);
            &&& end == End::Finished
            &&& agrees(t.regs, last_scope(ast), after_stmts(ss, env, num, f))
            &&& t.regs.len() == regs.len()
            &&& t.stack.len() == 0
            &&& t.budget == budget - stmts_steps(ss, env, num, f)
        }),
{
    let first = crate::script::compiler::first_scope();
    let a = crate::script::compiler::stmts_code(ast.init, first, 0);
    let b = crate::script::compiler::stmts_code(ast.sample, a.scope, 0);
    let last = last_scope(ast);
    crate::script::compiler::law_compiled_variables_are_apart(ast);
    crate::script::registers::lemma_stmts_keep(ast.sample, a.scope, 0);
    let (ss, scope, code) = if sample {
        (ast.sample, a.scope, b)
    } else {
        (ast.init, first, a)
    };
    assert(closing(code.scope, last));
    let start = State { pc: 0, stack: Seq::empty(), regs, budget };
    assert(stands_whole(code.ops, 0, code.ops));
    let end = lemma_stmts(ss, scope, 0, code.ops, start, last, env, num, f);
    let t = State {
        pc: code.ops.len() as int,
        regs: end,
        budget: budget - stmts_steps(ss, env, num, f),
        ..start
    };
    assert(crate::script::vm::advance(code.ops, t) == Effect::Stop(End::Finished, t));
    assert(crate::script::vm::run(code.ops, t, f) == (End::Finished, t));
}

/// The variables of a frame: `spl0` is its left sample and `spl1` its right one.
pub open spec fn framed(
    env: spec_fn(Seq<char>) -> u32,
    left: u32,
    right: u32,
) -> spec_fn(Seq<char>) -> u32 {
    |n: Seq<char>|
        if n == "spl1"@ {
            right
        } else if n == "spl0"@ {
            left
        } else {
            env(n)
        }
}

/// What comes out of a frame is what the statements of `@sample` give `spl0` on the left and `spl1` on
/// the right, where both are numbers; what they give the other variables is there for the next frame.
pub proof fn law_frames_come_out_as_the_script_says(
    ast: AstView,
    prog: Program,
    regs: Seq<u32>,
    left: u32,
    right: u32,
    budget: u32,
    env: spec_fn(Seq<char>) -> u32,
    num: spec_fn(Seq<char>) -> u32,
    f: spec_fn(Request, u32, u32) -> u32,
)
    requires
        crate::script::compiler::script_code(ast) == Ok::<
            ProgramView,
            crate::script::ScriptErrorView,
        >(prog@),
        prog.reserved(),
        agrees(regs, last_scope(ast), env),
        all_straight_stmts(ast.sample),
        numerals(prog@.sample, num, f),
        crate::script::depth::stmts_room(ast.sample) <= crate::script::vm::STACK_CAP,
        budget > 0,
        budget >= stmts_steps(ast.sample, framed(env, left, right), num, f),
    ensures
        ({
            let after = after_stmts(ast.sample, framed(env, left, right), num, f);
            let run = crate::script::vm::frame_run(prog, regs, left, right, budget, f);
            &&& run.left == crate::float_bits::finite_or_zero(after("spl0"@))
            &&& run.right == crate::float_bits::finite_or_zero(after("spl1"@))
            &&& agrees(run.regs, last_scope(ast), after)
        }),
{
    let last = last_scope(ast);
    let first = crate::script::compiler::first_scope();
    let a = crate::script::compiler::stmts_code(ast.init, first, 0);
    crate::script::compiler::law_compiled_variables_are_apart(ast);
    crate::script::registers::lemma_stmts_keep(ast.init, first, 0);
    crate::script::registers::lemma_stmts_keep(ast.sample, a.scope, 0);
    lemma_kept(first, a.scope, last);
    reveal_strlit("spl0");
    reveal_strlit("spl1");
    assert("spl0"@[3] != "spl1"@[3]);
    assert(last.bound[0] == first.bound[0] && last.bound[1] == first.bound[1]);
    crate::script::registers::lemma_lookup_bound(last, 0);
    crate::script::registers::lemma_lookup_bound(last, 1);
    let half = |n: Seq<char>|
        if n == "spl0"@ {
            left
        } else {
            env(n)
        };
    lemma_store(regs, last, env, "spl0"@, 0, left);
    lemma_store(regs.update(0, left), last, half, "spl1"@, 1, right);
    let both = |n: Seq<char>|
        if n == "spl1"@ {
            right
        } else {
            half(n)
        };
    assert(both =~= framed(env, left, right));
    let loaded = regs.update(0, left).update(1, right);
    assert(agrees(loaded, last, framed(env, left, right)));
    law_scripts_compute_what_they_say(
        ast,
        true,
        loaded,
        budget as int,
        framed(env, left, right),
        num,
        f,
    );
}

/// What a repetition needs at a place of a section: a condition or count and a body without further
/// repetitions, instructions that stand there with something behind them, and room on the stack.
pub open spec fn repeatable(
    e: ExprView,
    first: ExprView,
    body: Seq<StmtView>,
    scope: Scope,
    at: int,
    ops: Seq<OpView>,
    s: State,
    last: Scope,
    env: spec_fn(Seq<char>) -> u32,
    num: spec_fn(Seq<char>) -> u32,
    f: spec_fn(Request, u32, u32) -> u32,
) -> bool {
    let code = crate::script::compiler::expr_code(e, scope, at);
    &&& straight(first)
    &&& all_straight_stmts(body)
    &&& code.error is None
    &&& stands(ops, at, code.ops)
    &&& closing(code.scope, last)
    &&& agrees(s.regs, last, env)
    &&& numerals(ops, num, f)
    &&& s.stack.len() + crate::script::depth::room(first) <= crate::script::vm::STACK_CAP
    &&& s.stack.len() + crate::script::depth::stmts_room(body) <= crate::script::vm::STACK_CAP
    &&& s.stack.len() + 2 <= crate::script::vm::STACK_CAP
}

/// `while` looks at its condition: where it does not hold the run goes on behind the repetition with
/// everything as it was, and where it holds the body is run and the condition is looked at again.
pub proof fn law_while_repeats(
    cond: ExprView,
    body: Seq<StmtView>,
    scope: Scope,
    at: int,
    ops: Seq<OpView>,
    s: State,
    last: Scope,
    env: spec_fn(Seq<char>) -> u32,
    num: spec_fn(Seq<char>) -> u32,
    f: spec_fn(Request, u32, u32) -> u32,
) -> (regs: Seq<u32>)
    requires
        repeatable(
            ExprView::While(Box::new(cond), body),
            cond,
            body,
            scope,
            at,
            ops,
            s,
            last,
            env,
            num,
            f,
        ),
        s.pc == at,
        s.budget >= steps(cond, env, num, f) + stmts_steps(body, env, num, f) + 2,
    ensures
        ({
            let e = ExprView::While(Box::new(cond), body);
            let spent = steps(cond, env, num, f) + 1;
            let again = spent + stmts_steps(body, env, num, f) + 1;
            &&& !holds(value(cond, env, num, f)) ==> crate::script::vm::run(ops, s, f)
                == crate::script::vm::run(
                ops,
                State {
                    pc: at + crate::script::compiler::expr_code(e, scope, at).ops.len(),
                    budget: s.budget - spent,
                    ..s
                },
                f,
            )
            &&& holds(value(cond, env, num, f)) ==> crate::script::vm::run(ops, s, f)
                == crate::script::vm::run(ops, State { regs, budget: s.budget - again, ..s }, f)
                && agrees(regs, last, after_stmts(body, env, num, f))
        }),
{
    reveal(crate::script::compiler::while_joined);
    let e = ExprView::While(Box::new(cond), body);
    let code = crate::script::compiler::expr_code(e, scope, at);
    let c = crate::script::compiler::expr_code(cond, scope, at);
    let n = c.ops.len() as int;
    let b = crate::script::compiler::stmts_code(body, c.scope, at + n + 1);
    crate::script::registers::lemma_stmts_keep(body, c.scope, at + n + 1);
    lemma_kept(c.scope, b.scope, last);
    let end = at + n + 1 + b.ops.len() + 1;
    assert(code.ops == c.ops.push(OpView::JumpIfFalse(end)) + b.ops + seq![OpView::Jump(at)]);
    lemma_part(ops, at, code.ops, 0, c.ops);
    lemma_part(ops, at, code.ops, n + 1, b.ops);
    assert(ops[at + n] == code.ops[n]);
    let m = n + 1 + b.ops.len();
    assert(ops[at + m] == code.ops[m]);
    lemma_expr(cond, scope, at, ops, s, last, env, num, f);
    let x = value(cond, env, num, f);
    let met = behind(s, at + n, x, steps(cond, env, num, f));
    assert(s.stack.push(x).drop_last() =~= s.stack);
    let spent = steps(cond, env, num, f) + 1;
    if holds(x) {
        let inside = State { pc: at + n + 1, budget: s.budget - spent, ..s };
        assert(tick(ops, met, f) == Some(inside));
        lemma_tick(ops, met, inside, f);
        assert(stands_whole(ops, at + n + 1, b.ops));
        let regs = lemma_stmts(body, c.scope, at + n + 1, ops, inside, last, env, num, f);
        let done = State {
            pc: at + m,
            regs,
            budget: inside.budget - stmts_steps(body, env, num, f),
            ..inside
        };
        let again = State { pc: at, budget: done.budget - 1, ..done };
        assert(tick(ops, done, f) == Some(again));
        lemma_tick(ops, done, again, f);
        regs
    } else {
        let over = State { pc: end, budget: s.budget - spent, ..s };
        assert(tick(ops, met, f) == Some(over));
        lemma_tick(ops, met, over, f);
        s.regs
    }
}

/// The header of a counted repetition: the counter is compared with zero.
proof fn lemma_loop_head(
    ops: Seq<OpView>,
    s: State,
    counter: int,
    end: int,
    f: spec_fn(Request, u32, u32) -> u32,
)
    requires
        0 <= s.pc,
        s.pc + 4 < ops.len(),
        ops[s.pc] == OpView::LoadReg(counter),
        ops[s.pc + 1] == OpView::PushConst(NumView::Bits(0)),
        ops[s.pc + 2] == OpView::Gt,
        ops[s.pc + 3] == OpView::JumpIfFalse(end),
        0 <= end < ops.len(),
        0 <= counter < s.regs.len(),
        s.stack.len() + 2 <= crate::script::vm::STACK_CAP,
        s.budget >= 4,
    ensures
        crate::script::vm::run(ops, s, f) == crate::script::vm::run(
            ops,
            State {
                pc: if crate::float_bits::less(0, s.regs[counter]) {
                    s.pc + 4
                } else {
                    end
                },
                budget: s.budget - 4,
                ..s
            },
            f,
        ),
{
    let v = s.regs[counter];
    let a = State { pc: s.pc + 1, stack: s.stack.push(v), budget: s.budget - 1, ..s };
    assert(tick(ops, s, f) == Some(a));
    lemma_tick(ops, s, a, f);
    let b = State { pc: s.pc + 2, stack: s.stack.push(v).push(0), budget: s.budget - 2, ..s };
    assert(tick(ops, a, f) == Some(b));
    lemma_tick(ops, a, b, f);
    let base = State { pc: s.pc + 2, budget: s.budget - 2, ..s };
    lemma_binary_end(BinOp::Gt, ops, base, v, 0, f);
    let x = binary_value(BinOp::Gt, v, 0, f);
    let c = State { pc: s.pc + 3, stack: s.stack.push(x), budget: s.budget - 3, ..s };
    assert(s.stack.push(x).drop_last() =~= s.stack);
    let d = State {
        pc: if crate::float_bits::less(0, v) {
            s.pc + 4
        } else {
            end
        },
        budget: s.budget - 4,
        ..s
    };
    assert(tick(ops, c, f) == Some(d));
    lemma_tick(ops, c, d, f);
}

/// The end of a counted repetition: the counter falls by one, and the header follows.
proof fn lemma_loop_tail(
    ops: Seq<OpView>,
    s: State,
    counter: int,
    top: int,
    f: spec_fn(Request, u32, u32) -> u32,
)
    requires
        0 <= s.pc,
        s.pc + 5 < ops.len(),
        ops[s.pc] == OpView::LoadReg(counter),
        ops[s.pc + 1] == OpView::PushConst(NumView::Bits(crate::float_bits::ONE_BITS)),
        ops[s.pc + 2] == OpView::Sub,
        ops[s.pc + 3] == OpView::StoreReg(counter),
        ops[s.pc + 4] == OpView::Jump(top),
        0 <= top < ops.len(),
        0 <= counter < s.regs.len(),
        s.stack.len() + 2 <= crate::script::vm::STACK_CAP,
        s.budget >= 5,
    ensures
        crate::script::vm::run(ops, s, f) == crate::script::vm::run(
            ops,
            State {
                pc: top,
                regs: s.regs.update(
                    counter,
                    binary_value(BinOp::Sub, s.regs[counter], crate::float_bits::ONE_BITS, f),
                ),
                budget: s.budget - 5,
                ..s
            },
            f,
        ),
{
    let one = crate::float_bits::ONE_BITS;
    let v = s.regs[counter];
    let a = State { pc: s.pc + 1, stack: s.stack.push(v), budget: s.budget - 1, ..s };
    assert(tick(ops, s, f) == Some(a));
    lemma_tick(ops, s, a, f);
    let b = State { pc: s.pc + 2, stack: s.stack.push(v).push(one), budget: s.budget - 2, ..s };
    assert(tick(ops, a, f) == Some(b));
    lemma_tick(ops, a, b, f);
    let base = State { pc: s.pc + 2, budget: s.budget - 2, ..s };
    lemma_binary_end(BinOp::Sub, ops, base, v, one, f);
    let x = binary_value(BinOp::Sub, v, one, f);
    let c = State { pc: s.pc + 3, stack: s.stack.push(x), budget: s.budget - 3, ..s };
    assert(s.stack.push(x).drop_last() =~= s.stack);
    let d = State {
        pc: s.pc + 4,
        regs: s.regs.update(counter, x),
        budget: s.budget - 4,
        ..s
    };
    assert(tick(ops, c, f) == Some(d));
    lemma_tick(ops, c, d, f);
    let again = State { pc: top, budget: s.budget - 5, ..d };
    assert(tick(ops, d, f) == Some(again));
    lemma_tick(ops, d, again, f);
}

/// `loop` counts: it starts with its count in a register that no variable has. Where the register is
/// above zero the body is run, the register falls by one and is looked at again; otherwise the run goes
/// on behind the repetition with everything as it was.
pub proof fn law_loop_counts_down(
    count: ExprView,
    body: Seq<StmtView>,
    scope: Scope,
    at: int,
    ops: Seq<OpView>,
    s: State,
    t: State,
    last: Scope,
    env: spec_fn(Seq<char>) -> u32,
    num: spec_fn(Seq<char>) -> u32,
    f: spec_fn(Request, u32, u32) -> u32,
) -> (regs: Seq<u32>)
    requires
        repeatable(
            ExprView::Loop(Box::new(count), body),
            count,
            body,
            scope,
            at,
            ops,
            s,
            last,
            env,
            num,
            f,
        ),
        0 <= scope.next < s.regs.len(),
        nameless(scope.next, last),
        s.pc == at,
        s.budget > steps(count, env, num, f),
        t.regs.len() == s.regs.len(),
        agrees(t.regs, last, env),
        t.stack == s.stack,
        t.pc == at + crate::script::compiler::expr_code(
            count,
            crate::script::compiler::with_counter(scope),
            at,
        ).ops.len() + 1,
        t.budget >= stmts_steps(body, env, num, f) + 9,
    ensures
        ({
            let e = ExprView::Loop(Box::new(count), body);
            let counter = scope.next;
            &&& crate::script::vm::run(ops, s, f) == crate::script::vm::run(
                ops,
                State {
                    pc: t.pc,
                    regs: s.regs.update(counter, value(count, env, num, f)),
                    budget: s.budget - steps(count, env, num, f) - 1,
                    ..s
                },
                f,
            )
            &&& !crate::float_bits::less(0, t.regs[counter]) ==> crate::script::vm::run(ops, t, f)
                == crate::script::vm::run(
                ops,
                State {
                    pc: at + crate::script::compiler::expr_code(e, scope, at).ops.len(),
                    budget: t.budget - 4,
                    ..t
                },
                f,
            )
            &&& crate::float_bits::less(0, t.regs[counter]) ==> crate::script::vm::run(ops, t, f)
                == crate::script::vm::run(
                ops,
                State { regs, budget: t.budget - stmts_steps(body, env, num, f) - 9, ..t },
                f,
            ) && agrees(regs, last, after_stmts(body, env, num, f)) && regs[counter]
                == binary_value(BinOp::Sub, t.regs[counter], crate::float_bits::ONE_BITS, f)
        }),
{
    reveal(crate::script::compiler::loop_joined);
    let counter = scope.next;
    let e = ExprView::Loop(Box::new(count), body);
    let code = crate::script::compiler::expr_code(e, scope, at);
    let inner = crate::script::compiler::with_counter(scope);
    let c = crate::script::compiler::expr_code(count, inner, at);
    let n = c.ops.len() as int;
    let top = at + n + 1;
    let b = crate::script::compiler::stmts_code(body, c.scope, top + 4);
    crate::script::registers::lemma_stmts_keep(body, c.scope, top + 4);
    lemma_kept(c.scope, b.scope, last);
    let m = n + 5 + b.ops.len();
    let end = top + 4 + b.ops.len() + 5;
    assert(code.ops == c.ops + seq![
        OpView::StoreReg(counter),
        OpView::LoadReg(counter),
        OpView::PushConst(NumView::Bits(0)),
        OpView::Gt,
        OpView::JumpIfFalse(end),
    ] + b.ops + seq![
        OpView::LoadReg(counter),
        OpView::PushConst(NumView::Bits(crate::float_bits::ONE_BITS)),
        OpView::Sub,
        OpView::StoreReg(counter),
        OpView::Jump(top),
    ]);
    lemma_part(ops, at, code.ops, 0, c.ops);
    lemma_part(ops, at, code.ops, n + 5, b.ops);
    assert(ops[at + n] == code.ops[n]);
    assert(ops[at + (n + 1)] == code.ops[n + 1]);
    assert(ops[at + (n + 2)] == code.ops[n + 2]);
    assert(ops[at + (n + 3)] == code.ops[n + 3]);
    assert(ops[at + (n + 4)] == code.ops[n + 4]);
    assert(ops[at + m] == code.ops[m]);
    assert(ops[at + (m + 1)] == code.ops[m + 1]);
    assert(ops[at + (m + 2)] == code.ops[m + 2]);
    assert(ops[at + (m + 3)] == code.ops[m + 3]);
    assert(ops[at + (m + 4)] == code.ops[m + 4]);
    lemma_expr(count, inner, at, ops, s, last, env, num, f);
    let x = value(count, env, num, f);
    let met = behind(s, at + n, x, steps(count, env, num, f));
    assert(s.stack.push(x).drop_last() =~= s.stack);
    let entered = State {
        pc: top,
        regs: s.regs.update(counter, x),
        budget: s.budget - steps(count, env, num, f) - 1,
        ..s
    };
    assert(tick(ops, met, f) == Some(entered));
    lemma_tick(ops, met, entered, f);
    lemma_loop_head(ops, t, counter, end, f);
    if crate::float_bits::less(0, t.regs[counter]) {
        let inside = State { pc: top + 4, budget: t.budget - 4, ..t };
        assert(stands_whole(ops, top + 4, b.ops));
        let regs = lemma_stmts(body, c.scope, top + 4, ops, inside, last, env, num, f);
        let done = State {
            pc: at + m,
            regs,
            budget: inside.budget - stmts_steps(body, env, num, f),
            ..inside
        };
        assert(regs[counter] == t.regs[counter]);
        lemma_loop_tail(ops, done, counter, top, f);
        let v = binary_value(BinOp::Sub, regs[counter], crate::float_bits::ONE_BITS, f);
        let after = after_stmts(body, env, num, f);
        assert(agrees(regs.update(counter, v), last, after)) by {
            assert forall|name: Seq<char>|
                (#[trigger] crate::script::compiler::lookup(last.bound, name)) is Some implies ({
                let q = crate::script::compiler::lookup(last.bound, name)->0;
                0 <= q < regs.len() && regs.update(counter, v)[q] == after(name)
            }) by {
                crate::script::compiler::lemma_lookup(last.bound, name);
            }
        }
        regs.update(counter, v)
    } else {
        t.regs
    }
}

} // verus!
