//! What scripts mean: operators do the arithmetic that their symbols stand for, and a compound
//! assignment is short for a plain one.

use vstd::prelude::*;
use crate::script::compiler::{Builtin, OpView, Scope};
use crate::script::lexer::{OpTok, TokenView};
use crate::script::parser::{AssignOp, BinOp, ExprView, StmtView};
use crate::script::vm::{Effect, Request, State};

verus! {

/// `name op= value` is short for `name = name op value`.
pub open spec fn spelled_out(name: Seq<char>, op: BinOp, value: ExprView) -> StmtView {
    StmtView::Assign {
        name,
        op: AssignOp::Eq,
        value: ExprView::Binary(op, Box::new(ExprView::Var(name)), Box::new(value)),
    }
}

/// A compound assignment compiles to what the plain assignment compiles to that it is short for: `+=`
/// adds, `-=` subtracts, `*=` multiplies and `/=` divides.
pub proof fn law_compound_assignments_are_short_forms(
    name: Seq<char>,
    value: ExprView,
    scope: Scope,
    at: int,
)
    ensures
        crate::script::compiler::stmt_code(
            StmtView::Assign { name, op: AssignOp::PlusEq, value },
            scope,
            at,
        ) == crate::script::compiler::stmt_code(spelled_out(name, BinOp::Add, value), scope, at),
        crate::script::compiler::stmt_code(
            StmtView::Assign { name, op: AssignOp::MinusEq, value },
            scope,
            at,
        ) == crate::script::compiler::stmt_code(spelled_out(name, BinOp::Sub, value), scope, at),
        crate::script::compiler::stmt_code(
            StmtView::Assign { name, op: AssignOp::StarEq, value },
            scope,
            at,
        ) == crate::script::compiler::stmt_code(spelled_out(name, BinOp::Mul, value), scope, at),
        crate::script::compiler::stmt_code(
            StmtView::Assign { name, op: AssignOp::SlashEq, value },
            scope,
            at,
        ) == crate::script::compiler::stmt_code(spelled_out(name, BinOp::Div, value), scope, at),
{
    lemma_short(name, AssignOp::PlusEq, BinOp::Add, value, scope, at);
    lemma_short(name, AssignOp::MinusEq, BinOp::Sub, value, scope, at);
    lemma_short(name, AssignOp::StarEq, BinOp::Mul, value, scope, at);
    lemma_short(name, AssignOp::SlashEq, BinOp::Div, value, scope, at);
}

proof fn lemma_short(
    name: Seq<char>,
    op: AssignOp,
    binary: BinOp,
    value: ExprView,
    scope: Scope,
    at: int,
)
    requires
        op != AssignOp::Eq,
        crate::script::compiler::compound_code(op) == Some(
            crate::script::compiler::binary_code(binary),
        ),
    ensures
        crate::script::compiler::stmt_code(StmtView::Assign { name, op, value }, scope, at)
            == crate::script::compiler::stmt_code(spelled_out(name, binary, value), scope, at),
{
    reveal(crate::script::compiler::assign_joined);
    reveal(crate::script::compiler::binary_joined);
    let named = crate::script::compiler::with_name(scope, name);
    let r = crate::script::compiler::register(scope, name);
    crate::script::compiler::lemma_lookup(named.bound, name);
    assert(named.bound.len() > 0 ==> named.bound.drop_last().len() + 1 == named.bound.len());
    assert(crate::script::compiler::register(named, name) == r);
    assert(crate::script::compiler::with_name(named, name) == named);
    let v = crate::script::compiler::expr_code(value, named, at + 1);
    reveal_with_fuel(crate::script::compiler::expr_code, 2);
    let var = crate::script::compiler::expr_code(ExprView::Var(name), named, at);
    assert(var.ops == seq![OpView::LoadReg(r)]);
    let f = crate::script::compiler::binary_code(binary);
    if v.error is None && name != "srate"@ {
        assert(seq![OpView::LoadReg(r)] + v.ops + seq![f, OpView::StoreReg(r)] =~= seq![
            OpView::LoadReg(r),
        ] + v.ops + seq![f] + seq![OpView::StoreReg(r)]);
    }
}

/// What a binary operator asks the arithmetic for, where it asks.
pub open spec fn asks(op: BinOp) -> Option<Request> {
    match op {
        BinOp::Add => Some(Request::Add),
        BinOp::Sub | BinOp::Eq | BinOp::Ne => Some(Request::Sub),
        BinOp::Mul => Some(Request::Mul),
        BinOp::Div => Some(Request::Div),
        BinOp::Mod => Some(Request::Mod),
        BinOp::Pow => Some(Request::Pow),
        _ => None,
    }
}

/// What a binary operator that asks for nothing holds of its operands.
pub open spec fn holds_of(op: BinOp, x: u32, y: u32) -> bool {
    match op {
        BinOp::Lt => crate::float_bits::less(x, y),
        BinOp::Le => crate::float_bits::at_most(x, y),
        BinOp::Gt => crate::float_bits::less(y, x),
        BinOp::Ge => crate::float_bits::at_most(y, x),
        BinOp::And => !crate::script::vm::is_false(x) && !crate::script::vm::is_false(y),
        _ => !crate::script::vm::is_false(x) || !crate::script::vm::is_false(y),
    }
}

/// Every binary operator takes its two operands from the stack, the left one below the right one: it
/// asks for the arithmetic of its symbol, or leaves one where it holds and zero where it does not.
/// What is left of an equality tells whether the operands are within 0.00001 of each other.
pub proof fn law_operators_do_what_they_stand_for(
    op: BinOp,
    stack: Seq<u32>,
    x: u32,
    y: u32,
    s: State,
    len: int,
    v: u32,
)
    requires
        s.stack == stack.push(x).push(y),
        stack.len() + 2 <= crate::script::vm::STACK_CAP,
    ensures
        match asks(op) {
            Some(what) => crate::script::vm::effect(
                crate::script::compiler::binary_code(op),
                s,
                len,
            ) == Effect::Wait(what, x, y, State { stack, ..s }),
            None => crate::script::vm::effect(crate::script::compiler::binary_code(op), s, len)
                == Effect::Go(
                State {
                    stack: stack.push(
                        if holds_of(op, x, y) {
                            crate::float_bits::ONE_BITS
                        } else {
                            0
                        },
                    ),
                    ..s
                },
            ),
        },
        crate::float_bits::finite(v) ==> {
            let left = crate::script::vm::answer(crate::script::compiler::binary_code(op), v);
            match op {
                BinOp::Eq => left == (if crate::float_bits::magnitude(v) < 0x3727_c5ac {
                    crate::float_bits::ONE_BITS
                } else {
                    0
                }),
                BinOp::Ne => left == (if crate::float_bits::magnitude(v) < 0x3727_c5ac {
                    0
                } else {
                    crate::float_bits::ONE_BITS
                }),
                _ => left == v,
            }
        },
{
    assert(s.stack.drop_last() =~= stack.push(x));
    assert(s.stack.drop_last().drop_last() =~= stack);
}

/// A minus turns the sign of what stands on the stack, and a `!` its truth.
pub proof fn law_prefixes_do_what_they_stand_for(stack: Seq<u32>, x: u32, s: State, len: int)
    requires
        s.stack == stack.push(x),
        stack.len() < crate::script::vm::STACK_CAP,
        crate::float_bits::finite(x),
    ensures
        crate::script::vm::effect(OpView::Neg, s, len) == Effect::Go(
            State { stack: stack.push(crate::float_bits::negated(x)), ..s },
        ),
        crate::script::vm::effect(OpView::Not, s, len) == Effect::Go(
            State {
                stack: stack.push(
                    if crate::dsp::numbers::zero(x) {
                        crate::float_bits::ONE_BITS
                    } else {
                        0
                    },
                ),
                ..s
            },
        ),
{
    assert(s.stack.drop_last() =~= stack);
}

/// The name of a function.
pub open spec fn name_of(b: Builtin) -> Seq<char> {
    match b {
        Builtin::Sin => "sin"@,
        Builtin::Cos => "cos"@,
        Builtin::Tan => "tan"@,
        Builtin::Asin => "asin"@,
        Builtin::Acos => "acos"@,
        Builtin::Atan => "atan"@,
        Builtin::Sqrt => "sqrt"@,
        Builtin::Exp => "exp"@,
        Builtin::Log => "log"@,
        Builtin::Log10 => "log10"@,
        Builtin::Abs => "abs"@,
        Builtin::Floor => "floor"@,
        Builtin::Ceil => "ceil"@,
        Builtin::Round => "round"@,
        Builtin::Sign => "sign"@,
        Builtin::Tanh => "tanh"@,
        Builtin::Atan2 => "atan2"@,
        Builtin::Pow => "pow"@,
        Builtin::Min => "min"@,
        Builtin::Max => "max"@,
        Builtin::Fmod => "fmod"@,
    }
}

/// Every function is called by its name.
pub proof fn law_functions_are_called_by_name(b: Builtin)
    ensures
        crate::script::compiler::builtin_named(name_of(b)) == Some(b),
{
    assert(name_of(Builtin::Sin) == "sin"@);
    assert(name_of(Builtin::Cos) == "cos"@);
    assert(name_of(Builtin::Tan) == "tan"@);
    assert(name_of(Builtin::Asin) == "asin"@);
    assert(name_of(Builtin::Acos) == "acos"@);
    assert(name_of(Builtin::Atan) == "atan"@);
    assert(name_of(Builtin::Sqrt) == "sqrt"@);
    assert(name_of(Builtin::Exp) == "exp"@);
    assert(name_of(Builtin::Log) == "log"@);
    assert(name_of(Builtin::Log10) == "log10"@);
    assert(name_of(Builtin::Abs) == "abs"@);
    assert(name_of(Builtin::Floor) == "floor"@);
    assert(name_of(Builtin::Ceil) == "ceil"@);
    assert(name_of(Builtin::Round) == "round"@);
    assert(name_of(Builtin::Sign) == "sign"@);
    assert(name_of(Builtin::Tanh) == "tanh"@);
    assert(name_of(Builtin::Atan2) == "atan2"@);
    assert(name_of(Builtin::Pow) == "pow"@);
    assert(name_of(Builtin::Min) == "min"@);
    assert(name_of(Builtin::Max) == "max"@);
    assert(name_of(Builtin::Fmod) == "fmod"@);
    lemma_names_differ(b);
}

proof fn lemma_names_differ(b: Builtin)
    ensures
        forall|c: Builtin| b != c ==> (#[trigger] name_of(c)) != name_of(b),
{
    reveal_strlit("sin");
    reveal_strlit("cos");
    reveal_strlit("tan");
    reveal_strlit("asin");
    reveal_strlit("acos");
    reveal_strlit("atan");
    reveal_strlit("sqrt");
    reveal_strlit("exp");
    reveal_strlit("log");
    reveal_strlit("log10");
    reveal_strlit("abs");
    reveal_strlit("floor");
    reveal_strlit("ceil");
    reveal_strlit("round");
    reveal_strlit("sign");
    reveal_strlit("tanh");
    reveal_strlit("atan2");
    reveal_strlit("pow");
    reveal_strlit("min");
    reveal_strlit("max");
    reveal_strlit("fmod");
    assert forall|c: Builtin| b != c implies (#[trigger] name_of(c)) != name_of(b) by {
        if name_of(c) == name_of(b) {
            let (x, y) = (name_of(c), name_of(b));
            assert(x.len() == y.len() && x[0] == y[0] && x[1] == y[1] && x[2] == y[2]);
            assert(x.len() > 3 ==> x[3] == y[3]);
            assert(x.len() > 4 ==> x[4] == y[4]);
        }
    }
}

/// How an operator is written.
pub open spec fn symbol(op: OpTok) -> Seq<char> {
    match op {
        OpTok::Plus => "+"@,
        OpTok::Minus => "-"@,
        OpTok::Star => "*"@,
        OpTok::Slash => "/"@,
        OpTok::Percent => "%"@,
        OpTok::Caret => "^"@,
        OpTok::Assign => "="@,
        OpTok::PlusEq => "+="@,
        OpTok::MinusEq => "-="@,
        OpTok::StarEq => "*="@,
        OpTok::SlashEq => "/="@,
        OpTok::EqEq => "=="@,
        OpTok::NotEq => "!="@,
        OpTok::Lt => "<"@,
        OpTok::Le => "<="@,
        OpTok::Gt => ">"@,
        OpTok::Ge => ">="@,
        OpTok::AndAnd => "&&"@,
        OpTok::OrOr => "||"@,
        OpTok::Not => "!"@,
    }
}

/// An operator is read where its symbol, which is no letter, stands before a blank or at the end of
/// the text.
pub proof fn law_symbols_stand_for_operators(op: OpTok, src: Seq<char>, pos: int)
    requires
        0 <= pos,
        pos + symbol(op).len() <= src.len(),
        src.subrange(pos, pos + symbol(op).len()) == symbol(op),
        pos + symbol(op).len() < src.len() ==> src[pos + symbol(op).len()] == ' ',
        !crate::text::alphabetic(src[pos]),
    ensures
        crate::script::lexer::item_at(src, pos) == crate::script::lexer::Item::Token(
            TokenView::Op(op),
            pos + symbol(op).len(),
        ),
{
    reveal_strlit("+");
    reveal_strlit("-");
    reveal_strlit("*");
    reveal_strlit("/");
    reveal_strlit("%");
    reveal_strlit("^");
    reveal_strlit("=");
    reveal_strlit("+=");
    reveal_strlit("-=");
    reveal_strlit("*=");
    reveal_strlit("/=");
    reveal_strlit("==");
    reveal_strlit("!=");
    reveal_strlit("<");
    reveal_strlit("<=");
    reveal_strlit(">");
    reveal_strlit(">=");
    reveal_strlit("&&");
    reveal_strlit("||");
    reveal_strlit("!");
    let n = symbol(op).len();
    assert(src[pos] == symbol(op)[0]) by {
        assert(src.subrange(pos, pos + n)[0] == src[pos]);
    }
    if n == 2 {
        assert(src[pos + 1] == symbol(op)[1]) by {
            assert(src.subrange(pos, pos + n)[1] == src[pos + 1]);
        }
    }
}

} // verus!
