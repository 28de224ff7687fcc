//! How much of the stack a script needs.
//!
//! The stack of the machine is bounded and drops what does not fit. The room that a script needs
//! can be read off its source, and a script that needs no more than there is never loses a value.

use vstd::prelude::*;
use crate::script::compiler::{Code, OpView, Scope};
use crate::script::parser::{AssignOp, AstView, ExprView, StmtView};
use crate::script::vm::{Effect, Request, State, STACK_CAP};

verus! {

/// The larger of two numbers.
pub open spec fn larger(a: nat, b: nat) -> nat {
    if a >= b {
        a
    } else {
        b
    }
}

/// How many values an expression has on the stack at most.
pub open spec fn room(e: ExprView) -> nat
    decreases e,
{
    match e {
        ExprView::Num(_) | ExprView::Const(_) | ExprView::Var(_) => 1,
        ExprView::Unary(_, a) => room(*a),
        ExprView::Binary(_, a, b) => larger(room(*a), 1 + room(*b)),
        ExprView::Call(_, args) => larger(1, args_room(args)),
        ExprView::If(c, t, o) => larger(room(*c), larger(room(*t), room(*o))),
        ExprView::While(c, body) => larger(room(*c), stmts_room(body)),
        ExprView::Loop(n, body) => larger(room(*n), larger(2, stmts_room(body))),
    }
}

/// How many values arguments have on the stack at most: each stands on those in front of it.
pub open spec fn args_room(es: Seq<ExprView>) -> nat
    decreases es,
{
    if es.len() == 0 {
        0
    } else {
        larger(args_room(es.drop_last()), (es.len() - 1) as nat + room(es.last()))
    }
}

/// How many values a statement has on the stack at most.
pub open spec fn stmt_room(s: StmtView) -> nat
    decreases s,
{
    match s {
        StmtView::Assign { name, op, value } => if op == AssignOp::Eq {
            room(value)
        } else {
            1 + room(value)
        },
        StmtView::Expr(e) => room(e),
    }
}

/// How many values statements one after another have on the stack at most.
pub open spec fn stmts_room(ss: Seq<StmtView>) -> nat
    decreases ss,
{
    if ss.len() == 0 {
        0
    } else {
        larger(stmts_room(ss.drop_last()), stmt_room(ss.last()))
    }
}

spec fn less_one(h: nat) -> nat {
    if h == 0 {
        0
    } else {
        (h - 1) as nat
    }
}

/// The most values behind an instruction that meets `h` of them.
spec fn height_behind(op: OpView, h: nat) -> nat {
    match op {
        OpView::PushConst(_) | OpView::LoadReg(_) => h + 1,
        OpView::StoreReg(_) | OpView::Pop | OpView::JumpIfFalse(_) => less_one(h),
        OpView::Neg | OpView::Not => less_one(h) + 1,
        OpView::Call(b) => if crate::script::compiler::arity(b) == 2 {
            less_one(less_one(h)) + 1
        } else {
            less_one(h) + 1
        },
        OpView::Jump(_) => h,
        _ => less_one(less_one(h)) + 1,
    }
}

/// The heights `f` account for an instruction at place `p`, whose jumps lead from `lo` to `hi`.
spec fn step_held(op: OpView, p: int, f: spec_fn(int) -> nat, lo: int, hi: int) -> bool {
    match op {
        OpView::Jump(t) => lo <= t <= hi && f(p) <= f(t),
        OpView::JumpIfFalse(t) => {
            &&& lo <= t <= hi
            &&& height_behind(op, f(p)) <= f(t)
            &&& height_behind(op, f(p)) <= f(p + 1)
        },
        _ => height_behind(op, f(p)) <= f(p + 1),
    }
}

/// The heights `f` account for instructions that start at place `at`, and are no more than `cap`.
spec fn held(
    ops: Seq<OpView>,
    at: int,
    f: spec_fn(int) -> nat,
    lo: int,
    hi: int,
    cap: nat,
) -> bool {
    &&& forall|i: int| 0 <= i < ops.len() ==> step_held(#[trigger] ops[i], at + i, f, lo, hi)
    &&& forall|p: int| at <= p <= at + ops.len() ==> #[trigger] f(p) <= cap
}

/// Code at place `at` that is entered with `from` values and left with `to` of them.
spec fn bounded(code: Code, at: int, f: spec_fn(int) -> nat, from: nat, to: nat, cap: nat) -> bool {
    code.error is None ==> held(code.ops, at, f, at, at + code.ops.len(), cap) && f(at) == from
        && f(at + code.ops.len()) == to
}

proof fn lemma_wider(
    ops: Seq<OpView>,
    at: int,
    f: spec_fn(int) -> nat,
    g: spec_fn(int) -> nat,
    lo: int,
    hi: int,
    cap: nat,
    more: nat,
)
    requires
        held(ops, at, f, at, at + ops.len(), cap),
        forall|p: int| at <= p <= at + ops.len() ==> #[trigger] g(p) == f(p),
        lo <= at,
        at + ops.len() <= hi,
        cap <= more,
    ensures
        held(ops, at, g, lo, hi, more),
{
    assert forall|i: int| 0 <= i < ops.len() implies step_held(
        #[trigger] ops[i],
        at + i,
        g,
        lo,
        hi,
    ) by {
        assert(step_held(ops[i], at + i, f, at, at + ops.len()));
        assert(g(at + i) == f(at + i));
        assert(g(at + i + 1) == f(at + i + 1));
        match ops[i] {
            OpView::Jump(t) => {
                assert(g(t) == f(t));
            },
            OpView::JumpIfFalse(t) => {
                assert(g(t) == f(t));
            },
            _ => {},
        }
    }
    assert forall|p: int| at <= p <= at + ops.len() implies #[trigger] g(p) <= more by {
        assert(f(p) <= cap);
    }
}

proof fn lemma_joined(
    a: Seq<OpView>,
    b: Seq<OpView>,
    at: int,
    f: spec_fn(int) -> nat,
    lo: int,
    hi: int,
    cap: nat,
)
    requires
        held(a, at, f, lo, hi, cap),
        held(b, at + a.len(), f, lo, hi, cap),
    ensures
        held(a + b, at, f, lo, hi, cap),
{
    let ops = a + b;
    assert forall|i: int| 0 <= i < ops.len() implies step_held(
        #[trigger] ops[i],
        at + i,
        f,
        lo,
        hi,
    ) by {
        if i < a.len() {
            assert(ops[i] == a[i]);
        } else {
            assert(ops[i] == b[i - a.len()]);
            assert(at + a.len() + (i - a.len()) == at + i);
        }
    }
}

proof fn lemma_op_behind(
    a: Code,
    at: int,
    f: spec_fn(int) -> nat,
    from: nat,
    mid: nat,
    op: OpView,
    to: nat,
    cap: nat,
) -> (g: spec_fn(int) -> nat)
    requires
        bounded(a, at, f, from, mid, cap),
        !(op is Jump) && !(op is JumpIfFalse),
        height_behind(op, mid) <= to <= cap,
    ensures
        bounded(crate::script::compiler::closed_by(a, seq![op]), at, g, from, to, cap),
{
    let end = at + a.ops.len();
    let g = |p: int|
        if p <= end {
            f(p)
        } else {
            to
        };
    if a.error is None {
        let hi = end + 1;
        lemma_wider(a.ops, at, f, g, at, hi, cap, cap);
        assert(held(seq![op], end, g, at, hi, cap)) by {
            assert(g(end) == mid && g(end + 1) == to);
        }
        lemma_joined(a.ops, seq![op], at, g, at, hi, cap);
    }
    g
}

proof fn lemma_code_behind(
    a: Code,
    b: Code,
    at: int,
    f: spec_fn(int) -> nat,
    k: spec_fn(int) -> nat,
    from: nat,
    mid: nat,
    to: nat,
    cap: nat,
) -> (g: spec_fn(int) -> nat)
    requires
        a.error is None,
        bounded(a, at, f, from, mid, cap),
        bounded(b, at + a.ops.len(), k, mid, to, cap),
    ensures
        bounded(crate::script::compiler::behind(a.ops, b), at, g, from, to, cap),
{
    let end = at + a.ops.len();
    let g = |p: int|
        if p <= end {
            f(p)
        } else {
            k(p)
        };
    if b.error is None {
        let hi = end + b.ops.len();
        lemma_wider(a.ops, at, f, g, at, hi, cap, cap);
        lemma_wider(b.ops, end, k, g, at, hi, cap, cap);
        lemma_joined(a.ops, b.ops, at, g, at, hi, cap);
    }
    g
}

proof fn lemma_raised(
    a: Code,
    at: int,
    f: spec_fn(int) -> nat,
    from: nat,
    to: nat,
    cap: nat,
    more: nat,
)
    requires
        bounded(a, at, f, from, to, cap),
        cap <= more,
    ensures
        bounded(a, at, f, from, to, more),
{
    if a.error is None {
        lemma_wider(a.ops, at, f, f, at, at + a.ops.len(), cap, more);
    }
}

proof fn lemma_if_held(
    at: int,
    c: Code,
    t: Code,
    o: Code,
    fc: spec_fn(int) -> nat,
    ft: spec_fn(int) -> nat,
    fo: spec_fn(int) -> nat,
    h: nat,
    cap: nat,
) -> (g: spec_fn(int) -> nat)
    requires
        bounded(c, at, fc, h, h + 1, cap),
        bounded(t, at + c.ops.len() + 1, ft, h, h + 1, cap),
        bounded(o, at + c.ops.len() + 1 + t.ops.len() + 1, fo, h, h + 1, cap),
        h + 1 <= cap,
    ensures
        bounded(crate::script::compiler::if_joined(at, c, t, o), at, g, h, h + 1, cap),
{
    reveal(crate::script::compiler::if_joined);
    let c_end = at + c.ops.len();
    let t_end = c_end + 1 + t.ops.len();
    let o_at = t_end + 1;
    let end = o_at + o.ops.len();
    let g = |p: int|
        if p <= c_end {
            fc(p)
        } else if p <= t_end {
            ft(p)
        } else {
            fo(p)
        };
    if c.error is None && t.error is None && o.error is None {
        let skip = seq![OpView::JumpIfFalse(o_at)];
        let over = seq![OpView::Jump(end)];
        lemma_wider(c.ops, at, fc, g, at, end, cap, cap);
        lemma_wider(t.ops, c_end + 1, ft, g, at, end, cap, cap);
        lemma_wider(o.ops, o_at, fo, g, at, end, cap, cap);
        assert(g(c_end) == h + 1 && g(c_end + 1) == h && g(t_end) == h + 1 && g(o_at) == h && g(
            end,
        ) == h + 1);
        assert(held(skip, c_end, g, at, end, cap));
        assert(held(over, t_end, g, at, end, cap));
        lemma_joined(c.ops, skip, at, g, at, end, cap);
        lemma_joined(c.ops + skip, t.ops, at, g, at, end, cap);
        lemma_joined(c.ops + skip + t.ops, over, at, g, at, end, cap);
        lemma_joined(c.ops + skip + t.ops + over, o.ops, at, g, at, end, cap);
        assert(crate::script::compiler::if_joined(at, c, t, o).ops =~= c.ops + skip + t.ops + over
            + o.ops);
    }
    g
}

proof fn lemma_while_held(
    at: int,
    c: Code,
    b: Code,
    fc: spec_fn(int) -> nat,
    fb: spec_fn(int) -> nat,
    h: nat,
    cap: nat,
) -> (g: spec_fn(int) -> nat)
    requires
        bounded(c, at, fc, h, h + 1, cap),
        bounded(b, at + c.ops.len() + 1, fb, h, h, cap),
        h + 1 <= cap,
    ensures
        bounded(crate::script::compiler::while_joined(at, c, b), at, g, h, h + 1, cap),
{
    reveal(crate::script::compiler::while_joined);
    let c_end = at + c.ops.len();
    let b_end = c_end + 1 + b.ops.len();
    let end = b_end + 1;
    let g = |p: int|
        if p <= c_end {
            fc(p)
        } else if p <= b_end {
            fb(p)
        } else {
            h + 1
        };
    if c.error is None && b.error is None {
        let skip = seq![OpView::JumpIfFalse(end)];
        let back = seq![OpView::Jump(at)];
        lemma_wider(c.ops, at, fc, g, at, end, cap, cap);
        lemma_wider(b.ops, c_end + 1, fb, g, at, end, cap, cap);
        assert(g(at) == h && g(c_end) == h + 1 && g(c_end + 1) == h && g(b_end) == h && g(end) == h
            + 1);
        assert(held(skip, c_end, g, at, end, cap));
        assert(held(back, b_end, g, at, end, cap));
        lemma_joined(c.ops, skip, at, g, at, end, cap);
        lemma_joined(c.ops + skip, b.ops, at, g, at, end, cap);
        lemma_joined(c.ops + skip + b.ops, back, at, g, at, end, cap);
        assert(crate::script::compiler::while_joined(at, c, b).ops =~= c.ops + skip + b.ops + back);
    }
    g
}

proof fn lemma_loop_held(
    at: int,
    counter: int,
    n: Code,
    b: Code,
    fe: spec_fn(int) -> nat,
    fb: spec_fn(int) -> nat,
    h: nat,
    cap: nat,
) -> (g: spec_fn(int) -> nat)
    requires
        bounded(n, at, fe, h, h + 1, cap),
        bounded(b, at + n.ops.len() + 1 + 4, fb, h, h, cap),
        h + 2 <= cap,
    ensures
        bounded(crate::script::compiler::loop_joined(at, counter, n, b), at, g, h, h + 1, cap),
{
    reveal(crate::script::compiler::loop_joined);
    let all = crate::script::compiler::loop_joined(at, counter, n, b);
    let n_end = at + n.ops.len();
    let top = n_end + 1;
    let b_at = top + 4;
    let b_end = b_at + b.ops.len();
    let end = b_end + 5;
    let g = |p: int|
        if p <= n_end {
            fe(p)
        } else if p < b_at {
            if p == top {
                h
            } else if p == top + 2 {
                h + 2
            } else {
                h + 1
            }
        } else if p <= b_end {
            fb(p)
        } else if p == b_end + 2 {
            h + 2
        } else if p == b_end + 4 {
            h
        } else {
            h + 1
        };
    if n.error is None && b.error is None {
        let head = all.ops.subrange(n.ops.len() as int, (n.ops.len() + 5) as int);
        let tail = all.ops.subrange((n.ops.len() + 5 + b.ops.len()) as int, all.ops.len() as int);
        lemma_wider(n.ops, at, fe, g, at, end, cap, cap);
        lemma_wider(b.ops, b_at, fb, g, at, end, cap, cap);
        assert(g(n_end) == h + 1 && g(b_at) == h && g(b_end) == h);
        assert(held(head, n_end, g, at, end, cap)) by {
            assert(head[0] == OpView::StoreReg(counter));
            assert(head[1] == OpView::LoadReg(counter));
            assert(head[2] is PushConst);
            assert(head[3] == OpView::Gt);
            assert(head[4] == OpView::JumpIfFalse(end));
        }
        assert(held(tail, b_end, g, at, end, cap)) by {
            assert(tail[0] == OpView::LoadReg(counter));
            assert(tail[1] is PushConst);
            assert(tail[2] == OpView::Sub);
            assert(tail[3] == OpView::StoreReg(counter));
            assert(tail[4] == OpView::Jump(top));
        }
        lemma_joined(n.ops, head, at, g, at, end, cap);
        lemma_joined(n.ops + head, b.ops, at, g, at, end, cap);
        lemma_joined(n.ops + head + b.ops, tail, at, g, at, end, cap);
        assert(all.ops =~= n.ops + head + b.ops + tail);
    }
    g
}

/// Entered with `h` values, an expression is left with `h + 1` at most and has no more than
/// `h` and its room in between.
proof fn lemma_expr_held(e: ExprView, scope: Scope, at: int, h: nat) -> (g: spec_fn(int) -> nat)
    ensures
        room(e) >= 1,
        bounded(
            crate::script::compiler::expr_code(e, scope, at),
            at,
            g,
            h,
            h + 1,
            h + room(e),
        ),
    decreases e,
{
    let cap = h + room(e);
    match e {
        ExprView::Num(_) | ExprView::Const(_) | ExprView::Var(_) => {
            let g = |p: int|
                if p == at {
                    h
                } else {
                    h + 1
                };
            g
        },
        ExprView::Unary(op, a) => {
            let f = lemma_expr_held(*a, scope, at, h);
            let c = crate::script::compiler::expr_code(*a, scope, at);
            match op {
                crate::script::parser::UnOp::Neg => lemma_op_behind(
                    c,
                    at,
                    f,
                    h,
                    h + 1,
                    OpView::Neg,
                    h + 1,
                    cap,
                ),
                crate::script::parser::UnOp::Not => lemma_op_behind(
                    c,
                    at,
                    f,
                    h,
                    h + 1,
                    OpView::Not,
                    h + 1,
                    cap,
                ),
            }
        },
        ExprView::Binary(op, left, right) => {
            reveal(crate::script::compiler::binary_joined);
            let fa = lemma_expr_held(*left, scope, at, h);
            let a = crate::script::compiler::expr_code(*left, scope, at);
            let b_at = at + a.ops.len();
            let fb = lemma_expr_held(*right, a.scope, b_at, h + 1);
            let b = crate::script::compiler::expr_code(*right, a.scope, b_at);
            lemma_raised(a, at, fa, h, h + 1, h + room(*left), cap);
            lemma_raised(b, b_at, fb, h + 1, h + 2, h + 1 + room(*right), cap);
            if a.error is None {
                let both = lemma_code_behind(a, b, at, fa, fb, h, h + 1, h + 2, cap);
                lemma_op_behind(
                    crate::script::compiler::behind(a.ops, b),
                    at,
                    both,
                    h,
                    h + 2,
                    crate::script::compiler::binary_code(op),
                    h + 1,
                    cap,
                )
            } else {
                fa
            }
        },
        ExprView::Call(name, args) => {
            reveal(crate::script::compiler::call_joined);
            let f = lemma_args_held(args, scope, at, h);
            let a = crate::script::compiler::exprs_code(args, scope, at);
            lemma_raised(a, at, f, h, h + args.len(), h + args_room(args), cap);
            match crate::script::compiler::builtin_named(name) {
                Some(b) if args.len() == crate::script::compiler::arity(b) => lemma_op_behind(
                    a,
                    at,
                    f,
                    h,
                    h + args.len(),
                    OpView::Call(b),
                    h + 1,
                    cap,
                ),
                _ => f,
            }
        },
        ExprView::If(cond, then, other) => {
            let fc = lemma_expr_held(*cond, scope, at, h);
            let c = crate::script::compiler::expr_code(*cond, scope, at);
            let t_at = at + c.ops.len() + 1;
            let ft = lemma_expr_held(*then, c.scope, t_at, h);
            let t = crate::script::compiler::expr_code(*then, c.scope, t_at);
            let o_at = t_at + t.ops.len() + 1;
            let fo = lemma_expr_held(*other, t.scope, o_at, h);
            let o = crate::script::compiler::expr_code(*other, t.scope, o_at);
            lemma_raised(c, at, fc, h, h + 1, h + room(*cond), cap);
            lemma_raised(t, t_at, ft, h, h + 1, h + room(*then), cap);
            lemma_raised(o, o_at, fo, h, h + 1, h + room(*other), cap);
            lemma_if_held(at, c, t, o, fc, ft, fo, h, cap)
        },
        ExprView::While(cond, body) => {
            let fc = lemma_expr_held(*cond, scope, at, h);
            let c = crate::script::compiler::expr_code(*cond, scope, at);
            let b_at = at + c.ops.len() + 1;
            let fb = lemma_stmts_held(body, c.scope, b_at, h);
            let b = crate::script::compiler::stmts_code(body, c.scope, b_at);
            lemma_raised(c, at, fc, h, h + 1, h + room(*cond), cap);
            lemma_raised(b, b_at, fb, h, h, h + stmts_room(body), cap);
            lemma_while_held(at, c, b, fc, fb, h, cap)
        },
        ExprView::Loop(count, body) => {
            let inner = crate::script::compiler::with_counter(scope);
            let fe = lemma_expr_held(*count, inner, at, h);
            let n = crate::script::compiler::expr_code(*count, inner, at);
            let b_at = at + n.ops.len() + 1 + 4;
            let fb = lemma_stmts_held(body, n.scope, b_at, h);
            let b = crate::script::compiler::stmts_code(body, n.scope, b_at);
            lemma_raised(n, at, fe, h, h + 1, h + room(*count), cap);
            lemma_raised(b, b_at, fb, h, h, h + stmts_room(body), cap);
            lemma_loop_held(at, scope.next, n, b, fe, fb, h, cap)
        },
    }
}

proof fn lemma_args_held(es: Seq<ExprView>, scope: Scope, at: int, h: nat) -> (g: spec_fn(
    int,
) -> nat)
    ensures
        bounded(
            crate::script::compiler::exprs_code(es, scope, at),
            at,
            g,
            h,
            h + es.len(),
            h + args_room(es),
        ),
    decreases es,
{
    if es.len() == 0 {
        |p: int| h
    } else {
        let cap = h + args_room(es);
        let head = es.drop_last();
        let fa = lemma_args_held(head, scope, at, h);
        let a = crate::script::compiler::exprs_code(head, scope, at);
        let b_at = at + a.ops.len();
        let fb = lemma_expr_held(es.last(), a.scope, b_at, h + head.len());
        let b = crate::script::compiler::expr_code(es.last(), a.scope, b_at);
        lemma_raised(a, at, fa, h, h + head.len(), h + args_room(head), cap);
        lemma_raised(
            b,
            b_at,
            fb,
            h + head.len(),
            h + head.len() + 1,
            h + head.len() + room(es.last()),
            cap,
        );
        if a.error is None {
            lemma_code_behind(a, b, at, fa, fb, h, h + head.len(), h + es.len(), cap)
        } else {
            fa
        }
    }
}

proof fn lemma_stmt_held(s: StmtView, scope: Scope, at: int, h: nat) -> (g: spec_fn(int) -> nat)
    ensures
        bounded(
            crate::script::compiler::stmt_code(s, scope, at),
            at,
            g,
            h,
            h,
            h + stmt_room(s),
        ),
    decreases s,
{
    let cap = h + stmt_room(s);
    match s {
        StmtView::Assign { name, op, value } => {
            reveal(crate::script::compiler::assign_joined);
            let r = crate::script::compiler::register(scope, name);
            let inner = crate::script::compiler::with_name(scope, name);
            match crate::script::compiler::compound_code(op) {
                None => {
                    let f = lemma_expr_held(value, inner, at, h);
                    let v = crate::script::compiler::expr_code(value, inner, at);
                    lemma_op_behind(v, at, f, h, h + 1, OpView::StoreReg(r), h, cap)
                },
                Some(o) => {
                    let f = lemma_expr_held(value, inner, at + 1, h + 1);
                    let v = crate::script::compiler::expr_code(value, inner, at + 1);
                    let load = Code {
                        scope,
                        ops: seq![OpView::LoadReg(r)],
                        error: None,
                    };
                    let fl = |p: int|
                        if p == at {
                            h
                        } else {
                            h + 1
                        };
                    assert(bounded(load, at, fl, h, h + 1, cap));
                    let both = lemma_code_behind(load, v, at, fl, f, h, h + 1, h + 2, cap);
                    let c = crate::script::compiler::behind(load.ops, v);
                    let applied = lemma_op_behind(c, at, both, h, h + 2, o, h + 1, cap);
                    let d = crate::script::compiler::closed_by(c, seq![o]);
                    let g = lemma_op_behind(
                        d,
                        at,
                        applied,
                        h,
                        h + 1,
                        OpView::StoreReg(r),
                        h,
                        cap,
                    );
                    let whole = crate::script::compiler::closed_by(
                        c,
                        seq![o, OpView::StoreReg(r)],
                    );
                    assert(crate::script::compiler::closed_by(d, seq![OpView::StoreReg(r)]).ops
                        =~= whole.ops);
                    g
                },
            }
        },
        StmtView::Expr(e) => {
            let f = lemma_expr_held(e, scope, at, h);
            let v = crate::script::compiler::expr_code(e, scope, at);
            lemma_op_behind(v, at, f, h, h + 1, OpView::Pop, h, cap)
        },
    }
}

/// Statements are left with as many values as they are entered with.
proof fn lemma_stmts_held(ss: Seq<StmtView>, scope: Scope, at: int, h: nat) -> (g: spec_fn(
    int,
) -> nat)
    ensures
        bounded(
            crate::script::compiler::stmts_code(ss, scope, at),
            at,
            g,
            h,
            h,
            h + stmts_room(ss),
        ),
    decreases ss,
{
    if ss.len() == 0 {
        |p: int| h
    } else {
        let cap = h + stmts_room(ss);
        let head = ss.drop_last();
        let fa = lemma_stmts_held(head, scope, at, h);
        let a = crate::script::compiler::stmts_code(head, scope, at);
        let b_at = at + a.ops.len();
        let fb = lemma_stmt_held(ss.last(), a.scope, b_at, h);
        let b = crate::script::compiler::stmt_code(ss.last(), a.scope, b_at);
        lemma_raised(a, at, fa, h, h, h + stmts_room(head), cap);
        lemma_raised(b, b_at, fb, h, h, h + stmt_room(ss.last()), cap);
        if a.error is None {
            lemma_code_behind(a, b, at, fa, fb, h, h, h, cap)
        } else {
            fa
        }
    }
}

/// An instruction that pushes a value without popping one meets a full stack.
pub open spec fn drops_value(op: OpView, s: State) -> bool {
    (op is PushConst || op is LoadReg) && s.stack.len() >= STACK_CAP
}

/// The run from `s` loses a value before its end or its next question.
pub open spec fn advance_drops(ops: Seq<OpView>, s: State) -> bool
    decreases s.budget,
{
    if !(0 <= s.pc < ops.len()) || s.budget <= 0 {
        false
    } else {
        drops_value(ops[s.pc], s) || match crate::script::vm::effect(
            ops[s.pc],
            State { pc: s.pc + 1, budget: s.budget - 1, ..s },
            ops.len() as int,
        ) {
            Effect::Go(next) => advance_drops(ops, next),
            _ => false,
        }
    }
}

/// A whole run, in which `f` does the arithmetic, loses a value.
pub open spec fn run_drops(
    ops: Seq<OpView>,
    s: State,
    f: spec_fn(Request, u32, u32) -> u32,
) -> bool
    decreases s.budget,
{
    advance_drops(ops, s) || match crate::script::vm::advance(ops, s) {
        Effect::Wait(what, a, b, t) => 0 <= t.budget < s.budget && run_drops(
            ops,
            crate::script::vm::resumed(ops, t, f(what, a, b)),
            f,
        ),
        _ => false,
    }
}

proof fn lemma_advance_keeps(ops: Seq<OpView>, s: State, g: spec_fn(int) -> nat, cap: nat)
    requires
        held(ops, 0, g, 0, ops.len() as int, cap),
        cap <= STACK_CAP,
        0 <= s.pc <= ops.len(),
        s.stack.len() <= g(s.pc),
    ensures
        !advance_drops(ops, s),
        match crate::script::vm::advance(ops, s) {
            Effect::Wait(_, _, _, t) => 0 < t.pc <= ops.len() && forall|v: u32|
                (#[trigger] crate::script::vm::resumed(ops, t, v)).stack.len() <= g(t.pc),
            _ => true,
        },
    decreases s.budget,
{
    if s.pc < ops.len() && s.budget > 0 {
        let op = ops[s.pc];
        assert(step_held(op, 0 + s.pc, g, 0, ops.len() as int));
        assert(g(s.pc + 1) <= cap);
        assert(g(s.pc) <= cap);
        let behind = State { pc: s.pc + 1, budget: s.budget - 1, ..s };
        if let Effect::Go(next) = crate::script::vm::effect(op, behind, ops.len() as int) {
            lemma_advance_keeps(ops, next, g, cap);
        }
    }
}

proof fn lemma_run_keeps(
    ops: Seq<OpView>,
    s: State,
    g: spec_fn(int) -> nat,
    cap: nat,
    f: spec_fn(Request, u32, u32) -> u32,
)
    requires
        held(ops, 0, g, 0, ops.len() as int, cap),
        cap <= STACK_CAP,
        0 <= s.pc <= ops.len(),
        s.stack.len() <= g(s.pc),
    ensures
        !run_drops(ops, s, f),
    decreases s.budget,
{
    lemma_advance_keeps(ops, s, g, cap);
    if let Effect::Wait(what, a, b, t) = crate::script::vm::advance(ops, s) {
        if 0 <= t.budget < s.budget {
            lemma_run_keeps(ops, crate::script::vm::resumed(ops, t, f(what, a, b)), g, cap, f);
        }
    }
}

/// A compiled section whose statements need no more room than the stack has never loses a value,
/// whatever its registers hold and its arithmetic yields.
pub proof fn law_shallow_scripts_lose_no_value(
    ast: AstView,
    regs: Seq<u32>,
    budget: int,
    f: spec_fn(Request, u32, u32) -> u32,
)
    ensures
        crate::script::compiler::script_code(ast) matches Ok(p) ==> {
            let start = State { pc: 0, stack: Seq::empty(), regs, budget };
            &&& stmts_room(ast.init) <= STACK_CAP ==> !run_drops(p.init, start, f)
            &&& stmts_room(ast.sample) <= STACK_CAP ==> !run_drops(p.sample, start, f)
        },
{
    let start = State { pc: 0, stack: Seq::empty(), regs, budget };
    let first = crate::script::compiler::first_scope();
    let a = crate::script::compiler::stmts_code(ast.init, first, 0);
    let b = crate::script::compiler::stmts_code(ast.sample, a.scope, 0);
    let fa = lemma_stmts_held(ast.init, first, 0, 0);
    let fb = lemma_stmts_held(ast.sample, a.scope, 0, 0);
    if let Ok(p) = crate::script::compiler::script_code(ast) {
        if stmts_room(ast.init) <= STACK_CAP {
            lemma_run_keeps(p.init, start, fa, stmts_room(ast.init), f);
        }
        if stmts_room(ast.sample) <= STACK_CAP {
            lemma_run_keeps(p.sample, start, fb, stmts_room(ast.sample), f);
        }
    }
}

} // verus!
