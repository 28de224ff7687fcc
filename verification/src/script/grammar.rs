//! How scripts are written: the tokens of an expression, with brackets only where the precedence of
//! the operators asks for them. Reading them gives the expression back.

use vstd::prelude::*;
use crate::script::lexer::{ConstKind, OpTok, TokenView};
use crate::script::parser::{
    AssignOp, AstView, BinOp, Const, ExprView, Section, StmtView, Tokens, UnOp,
};

verus! {

/// The symbol of a binary operator.
pub open spec fn sign(op: BinOp) -> OpTok {
    match op {
        BinOp::Add => OpTok::Plus,
        BinOp::Sub => OpTok::Minus,
        BinOp::Mul => OpTok::Star,
        BinOp::Div => OpTok::Slash,
        BinOp::Mod => OpTok::Percent,
        BinOp::Pow => OpTok::Caret,
        BinOp::Eq => OpTok::EqEq,
        BinOp::Ne => OpTok::NotEq,
        BinOp::Lt => OpTok::Lt,
        BinOp::Le => OpTok::Le,
        BinOp::Gt => OpTok::Gt,
        BinOp::Ge => OpTok::Ge,
        BinOp::And => OpTok::AndAnd,
        BinOp::Or => OpTok::OrOr,
    }
}

/// How tightly a binary operator binds.
pub open spec fn tightness(op: BinOp) -> int {
    match op {
        BinOp::Or => 0,
        BinOp::And => 1,
        BinOp::Eq | BinOp::Ne | BinOp::Lt | BinOp::Le | BinOp::Gt | BinOp::Ge => 2,
        BinOp::Add | BinOp::Sub => 3,
        BinOp::Mul | BinOp::Div | BinOp::Mod => 4,
        BinOp::Pow => 6,
    }
}

/// How tightly an expression holds together: prefix operators stand between `*` and `^`, and what
/// has no operator outside brackets holds together best.
pub open spec fn firmness(e: ExprView) -> int {
    match e {
        ExprView::Binary(op, _, _) => tightness(op),
        ExprView::Unary(_, _) => 5,
        _ => 7,
    }
}

/// The tokens of an expression in a place that asks for the firmness `n`.
pub open spec fn written(e: ExprView, n: int) -> Seq<TokenView>
    decreases e, 1int,
{
    if firmness(e) >= n {
        unbracketed(e)
    } else {
        seq![TokenView::LParen] + unbracketed(e) + seq![TokenView::RParen]
    }
}

/// The tokens of an expression without brackets around it: operators group to the left, `^` to the
/// right, and a prefix operator applies to what a following `^` belongs to.
pub open spec fn unbracketed(e: ExprView) -> Seq<TokenView>
    decreases e, 0int,
{
    match e {
        ExprView::Num(t) => seq![TokenView::Num(t)],
        ExprView::Const(Const::Pi) => seq![TokenView::Const(ConstKind::Pi)],
        ExprView::Const(Const::E) => seq![TokenView::Const(ConstKind::E)],
        ExprView::Var(name) => seq![TokenView::Ident(name)],
        ExprView::Unary(UnOp::Neg, a) => seq![TokenView::Op(OpTok::Minus)] + written(*a, 5),
        ExprView::Unary(UnOp::Not, a) => seq![TokenView::Op(OpTok::Not)] + written(*a, 5),
        ExprView::Binary(op, a, b) => if op == BinOp::Pow {
            written(*a, 7) + seq![TokenView::Op(sign(op))] + written(*b, 5)
        } else {
            written(*a, tightness(op)) + seq![TokenView::Op(sign(op))] + written(
                *b,
                tightness(op) + 1,
            )
        },
        ExprView::Call(name, args) => seq![TokenView::Ident(name), TokenView::LParen] + listed(
            args,
            0,
        ) + seq![TokenView::RParen],
        ExprView::If(a, b, c) => seq![TokenView::Ident("if"@), TokenView::LParen] + written(*a, 0)
            + seq![TokenView::Comma] + written(*b, 0) + seq![TokenView::Comma] + written(*c, 0)
            + seq![TokenView::RParen],
        ExprView::While(a, body) => seq![TokenView::Ident("while"@), TokenView::LParen] + written(
            *a,
            0,
        ) + seq![TokenView::RParen, TokenView::LParen] + sequenced(body, 0)
            + seq![TokenView::RParen],
        ExprView::Loop(a, body) => seq![TokenView::Ident("loop"@), TokenView::LParen] + written(
            *a,
            0,
        ) + seq![TokenView::RParen, TokenView::LParen] + sequenced(body, 0)
            + seq![TokenView::RParen],
    }
}

/// The arguments of a call from the one at `i` on, with commas between them.
pub open spec fn listed(args: Seq<ExprView>, i: int) -> Seq<TokenView>
    decreases args, args.len() - i,
{
    if !(0 <= i < args.len()) {
        Seq::empty()
    } else if i == args.len() - 1 {
        written(args[i], 0)
    } else {
        written(args[i], 0) + seq![TokenView::Comma] + listed(args, i + 1)
    }
}

/// The symbol of an assignment.
pub open spec fn assign_sign(op: AssignOp) -> OpTok {
    match op {
        AssignOp::Eq => OpTok::Assign,
        AssignOp::PlusEq => OpTok::PlusEq,
        AssignOp::MinusEq => OpTok::MinusEq,
        AssignOp::StarEq => OpTok::StarEq,
        AssignOp::SlashEq => OpTok::SlashEq,
    }
}

/// The tokens of a statement.
pub open spec fn stmt_written(s: StmtView) -> Seq<TokenView>
    decreases s, 0int,
{
    match s {
        StmtView::Assign { name, op, value } => seq![
            TokenView::Ident(name),
            TokenView::Op(assign_sign(op)),
        ] + written(value, 0),
        StmtView::Expr(e) => written(e, 0),
    }
}

/// The statements from the one at `i` on, with a `;` behind each.
pub open spec fn sequenced(ss: Seq<StmtView>, i: int) -> Seq<TokenView>
    decreases ss, ss.len() - i,
{
    if !(0 <= i < ss.len()) {
        Seq::empty()
    } else {
        stmt_written(ss[i]) + seq![TokenView::Semicolon] + sequenced(ss, i + 1)
    }
}

/// No call in an expression has the name of a control form.
pub open spec fn callable(e: ExprView) -> bool
    decreases e, 0int,
{
    match e {
        ExprView::Num(_) | ExprView::Const(_) | ExprView::Var(_) => true,
        ExprView::Unary(_, a) => callable(*a),
        ExprView::Binary(_, a, b) => callable(*a) && callable(*b),
        ExprView::Call(name, args) => name != "if"@ && name != "while"@ && name != "loop"@ && (
        forall|i: int| 0 <= i < args.len() ==> callable(#[trigger] args[i])),
        ExprView::If(a, b, c) => callable(*a) && callable(*b) && callable(*c),
        ExprView::While(a, body) => callable(*a) && (forall|i: int|
            0 <= i < body.len() ==> stmt_callable(#[trigger] body[i])),
        ExprView::Loop(a, body) => callable(*a) && (forall|i: int|
            0 <= i < body.len() ==> stmt_callable(#[trigger] body[i])),
    }
}

/// No call in a statement has the name of a control form.
pub open spec fn stmt_callable(s: StmtView) -> bool
    decreases s, 0int,
{
    match s {
        StmtView::Assign { name, op, value } => callable(value),
        StmtView::Expr(e) => callable(e),
    }
}

/// The given tokens stand in a token list from a place on.
pub open spec fn stands(toks: Tokens, pos: int, ts: Seq<TokenView>) -> bool {
    &&& 0 <= pos
    &&& pos + ts.len() <= toks.len()
    &&& forall|i: int| 0 <= i < ts.len() ==> (#[trigger] toks[pos + i]).node == ts[i]
}

/// What stands behind an expression in a place of firmness `n` does not belong to it.
pub open spec fn apart_from(t: Option<TokenView>, n: int) -> bool {
    &&& t != Some(TokenView::LParen)
    &&& n < 7 ==> t != Some(TokenView::Op(OpTok::Caret))
    &&& forall|m: int| n < m < 5 ==> (#[trigger] crate::script::parser::level_op(m, t)) is None
}

proof fn lemma_joined(toks: Tokens, pos: int, a: Seq<TokenView>, b: Seq<TokenView>)
    requires
        stands(toks, pos, a + b),
    ensures
        stands(toks, pos, a),
        stands(toks, pos + a.len(), b),
{
    assert forall|i: int| 0 <= i < a.len() implies (#[trigger] toks[pos + i]).node == a[i] by {
        assert((a + b)[i] == a[i]);
    }
    assert forall|i: int| 0 <= i < b.len() implies (#[trigger] toks[pos + a.len() + i]).node
        == b[i] by {
        assert(toks[pos + (a.len() + i)].node == (a + b)[a.len() + i]);
    }
}

proof fn lemma_token(toks: Tokens, pos: int, ts: Seq<TokenView>, i: int)
    requires
        stands(toks, pos, ts),
        0 <= i < ts.len(),
    ensures
        crate::script::parser::token_at(toks, pos + i) == Some(ts[i]),
{
    assert(toks[pos + i].node == ts[i]);
}

/// A token that an expression without a prefix operator starts with.
spec fn starts(t: TokenView) -> bool {
    t is Num || t is Const || t is Ident || t is LParen
}

proof fn lemma_first(e: ExprView, n: int)
    requires
        0 <= n <= 7,
    ensures
        written(e, n).len() > 0,
        starts(written(e, n)[0]) || (n < 6 && (written(e, n)[0] == TokenView::Op(OpTok::Minus)
            || written(e, n)[0] == TokenView::Op(OpTok::Not))),
        written(e, n)[0] is Ident && written(e, n).len() > 1 ==> crate::script::parser::assignment(
            Some(written(e, n)[1]),
        ) is None,
    decreases e,
{
    if firmness(e) >= n {
        match e {
            ExprView::Binary(op, a, b) => {
                lemma_first(
                    *a,
                    if op == BinOp::Pow {
                        7
                    } else {
                        tightness(op)
                    },
                );
            },
            _ => {},
        }
    }
}

spec fn whole(e: ExprView, toks: Tokens, pos: int, end: int) -> bool {
    crate::script::parser::expr_at(toks, pos) == Ok::<
        (ExprView, int),
        crate::script::ScriptErrorView,
    >((e, end))
}

spec fn rank(e: ExprView, n: int) -> int {
    if firmness(e) < n {
        18 - n
    } else {
        10 - n
    }
}

proof fn lemma_reads(e: ExprView, n: int, toks: Tokens, pos: int)
    requires
        0 <= n <= 7,
        callable(e),
        stands(toks, pos, written(e, n)),
        apart_from(crate::script::parser::token_at(toks, pos + written(e, n).len()), n),
    ensures
        ({
            let end = pos + written(e, n).len();
            &&& n < 5 ==> crate::script::parser::level_at(toks, pos, n)
                == crate::script::parser::chain_at(toks, end, n, e)
            &&& n == 5 ==> crate::script::parser::unary_at(toks, pos) == Ok::<
                (ExprView, int),
                crate::script::ScriptErrorView,
            >((e, end))
            &&& n == 6 ==> crate::script::parser::power_at(toks, pos) == Ok::<
                (ExprView, int),
                crate::script::ScriptErrorView,
            >((e, end))
            &&& n == 7 ==> crate::script::parser::primary_at(toks, pos) == Ok::<
                (ExprView, int),
                crate::script::ScriptErrorView,
            >((e, end))
        }),
    decreases e, rank(e, n),
{
    let ts = written(e, n);
    let end = pos + ts.len();
    lemma_first(e, n);
    lemma_token(toks, pos, ts, 0);
    if n < 7 && (firmness(e) != n) {
        assert(written(e, n + 1) == ts);
        lemma_first(e, n + 1);
        lemma_reads(e, n + 1, toks, pos);
    } else if n < 5 {
        lemma_binary(e, n, toks, pos);
    } else if n == 5 {
        match e {
            ExprView::Unary(op, a) => {
                lemma_joined(toks, pos, seq![ts[0]], written(*a, 5));
                lemma_reads(*a, 5, toks, pos + 1);
            },
            _ => {},
        }
    } else if n == 6 {
        lemma_power(e, toks, pos);
    } else if firmness(e) < 7 {
        let inner = unbracketed(e);
        assert(ts =~= seq![TokenView::LParen] + (inner + seq![TokenView::RParen]));
        lemma_joined(toks, pos, seq![TokenView::LParen], inner + seq![TokenView::RParen]);
        lemma_joined(toks, pos + 1, inner, seq![TokenView::RParen]);
        lemma_token(toks, pos + 1 + inner.len(), seq![TokenView::RParen], 0);
        assert(written(e, 0) == inner);
        lemma_reads(e, 0, toks, pos + 1);
    } else {
        lemma_primary(e, toks, pos);
    }
}

proof fn lemma_binary(e: ExprView, n: int, toks: Tokens, pos: int)
    requires
        0 <= n < 5,
        firmness(e) == n,
        callable(e),
        stands(toks, pos, written(e, n)),
        apart_from(crate::script::parser::token_at(toks, pos + written(e, n).len()), n),
    ensures
        crate::script::parser::level_at(toks, pos, n) == crate::script::parser::chain_at(
            toks,
            pos + written(e, n).len(),
            n,
            e,
        ),
    decreases e, 0int,
{
    match e {
        ExprView::Binary(op, a, b) => {
            let (x, y) = (written(*a, n), written(*b, n + 1));
            let t = TokenView::Op(sign(op));
            assert(written(e, n) =~= x + (seq![t] + y));
            lemma_joined(toks, pos, x, seq![t] + y);
            lemma_joined(toks, pos + x.len(), seq![t], y);
            lemma_token(toks, pos + x.len(), seq![t], 0);
            lemma_reads(*a, n, toks, pos);
            lemma_first(*b, n + 1);
            lemma_reads(*b, n + 1, toks, pos + x.len() + 1);
        },
        _ => {},
    }
}

proof fn lemma_power(e: ExprView, toks: Tokens, pos: int)
    requires
        firmness(e) == 6,
        callable(e),
        stands(toks, pos, written(e, 6)),
        apart_from(crate::script::parser::token_at(toks, pos + written(e, 6).len()), 6),
    ensures
        crate::script::parser::power_at(toks, pos) == Ok::<
            (ExprView, int),
            crate::script::ScriptErrorView,
        >((e, pos + written(e, 6).len())),
    decreases e, 0int,
{
    match e {
        ExprView::Binary(op, a, b) => {
            let (x, y) = (written(*a, 7), written(*b, 5));
            let t = TokenView::Op(sign(op));
            assert(written(e, 6) =~= x + (seq![t] + y));
            lemma_joined(toks, pos, x, seq![t] + y);
            lemma_joined(toks, pos + x.len(), seq![t], y);
            lemma_token(toks, pos + x.len(), seq![t], 0);
            lemma_first(*a, 7);
            lemma_reads(*a, 7, toks, pos);
            lemma_reads(*b, 5, toks, pos + x.len() + 1);
        },
        _ => {},
    }
}

proof fn lemma_primary(e: ExprView, toks: Tokens, pos: int)
    requires
        firmness(e) == 7,
        callable(e),
        stands(toks, pos, written(e, 7)),
        apart_from(crate::script::parser::token_at(toks, pos + written(e, 7).len()), 7),
    ensures
        crate::script::parser::primary_at(toks, pos) == Ok::<
            (ExprView, int),
            crate::script::ScriptErrorView,
        >((e, pos + written(e, 7).len())),
    decreases e, 1int,
{
    let ts = written(e, 7);
    lemma_token(toks, pos, ts, 0);
    match e {
        ExprView::Call(name, args) => {
            lemma_call(name, args, toks, pos);
        },
        ExprView::If(a, b, c) => {
            lemma_if(e, toks, pos);
        },
        ExprView::While(a, body) => {
            lemma_block_form(e, toks, pos);
        },
        ExprView::Loop(a, body) => {
            lemma_block_form(e, toks, pos);
        },
        _ => {},
    }
}

proof fn lemma_call(name: Seq<char>, args: Seq<ExprView>, toks: Tokens, pos: int)
    requires
        callable(ExprView::Call(name, args)),
        stands(toks, pos, unbracketed(ExprView::Call(name, args))),
    ensures
        crate::script::parser::primary_at(toks, pos) == Ok::<
            (ExprView, int),
            crate::script::ScriptErrorView,
        >(
            (
                ExprView::Call(name, args),
                pos + unbracketed(ExprView::Call(name, args)).len(),
            ),
        ),
    decreases args, args.len() + 1,
{
    let ts = unbracketed(ExprView::Call(name, args));
    let head = seq![TokenView::Ident(name), TokenView::LParen];
    let inner = listed(args, 0);
    assert(ts =~= head + (inner + seq![TokenView::RParen]));
    lemma_joined(toks, pos, head, inner + seq![TokenView::RParen]);
    lemma_joined(toks, pos + 2, inner, seq![TokenView::RParen]);
    lemma_token(toks, pos, head, 0);
    lemma_token(toks, pos, head, 1);
    lemma_token(toks, pos + 2 + inner.len(), seq![TokenView::RParen], 0);
    if args.len() > 0 {
        lemma_first(args[0], 0);
        lemma_token(toks, pos + 2, inner, 0);
        assert(inner[0] == written(args[0], 0)[0]);
        lemma_args(args, 0, toks, pos + 2);
        assert(args.take(0) =~= Seq::<ExprView>::empty());
    } else {
        assert(args =~= Seq::<ExprView>::empty());
    }
}

proof fn lemma_args(args: Seq<ExprView>, i: int, toks: Tokens, pos: int)
    requires
        0 <= i < args.len(),
        forall|k: int| 0 <= k < args.len() ==> callable(#[trigger] args[k]),
        stands(toks, pos, listed(args, i)),
        crate::script::parser::token_at(toks, pos + listed(args, i).len()) == Some(
            TokenView::RParen,
        ),
    ensures
        crate::script::parser::more_arguments_at(toks, pos, args.take(i)) == Ok::<
            (Seq<ExprView>, int),
            crate::script::ScriptErrorView,
        >((args, pos + listed(args, i).len() + 1)),
    decreases args, args.len() - i,
{
    let x = written(args[i], 0);
    lemma_first(args[i], 0);
    assert(args.take(i).push(args[i]) =~= args.take(i + 1));
    if i == args.len() - 1 {
        lemma_reads(args[i], 0, toks, pos);
        assert(whole(args[i], toks, pos, pos + x.len()));
        assert(args.take(i + 1) =~= args);
    } else {
        let rest = listed(args, i + 1);
        assert(listed(args, i) =~= x + (seq![TokenView::Comma] + rest));
        lemma_joined(toks, pos, x, seq![TokenView::Comma] + rest);
        lemma_joined(toks, pos + x.len(), seq![TokenView::Comma], rest);
        lemma_token(toks, pos + x.len(), seq![TokenView::Comma], 0);
        lemma_reads(args[i], 0, toks, pos);
        assert(whole(args[i], toks, pos, pos + x.len()));
        lemma_args(args, i + 1, toks, pos + x.len() + 1);
    }
}

#[verifier::rlimit(30)]
proof fn lemma_if(e: ExprView, toks: Tokens, pos: int)
    requires
        e is If,
        callable(e),
        stands(toks, pos, unbracketed(e)),
    ensures
        crate::script::parser::primary_at(toks, pos) == Ok::<
            (ExprView, int),
            crate::script::ScriptErrorView,
        >((e, pos + unbracketed(e).len())),
    decreases e, 0int,
{
    match e {
        ExprView::If(a, b, c) => {
            let args = seq![*a, *b, *c];
            let (x, y, z) = (written(*a, 0), written(*b, 0), written(*c, 0));
            let comma = seq![TokenView::Comma];
            let close = seq![TokenView::RParen];
            let head = seq![TokenView::Ident("if"@), TokenView::LParen];
            assert(unbracketed(e) =~= head + (x + (comma + (y + (comma + (z + close))))));
            let p = pos + 2;
            lemma_joined(toks, pos, head, x + (comma + (y + (comma + (z + close)))));
            lemma_token(toks, pos, head, 0);
            lemma_token(toks, pos, head, 1);
            lemma_joined(toks, p, x, comma + (y + (comma + (z + close))));
            let q = p + x.len() + 1;
            lemma_joined(toks, q - 1, comma, y + (comma + (z + close)));
            lemma_joined(toks, q, y, comma + (z + close));
            let r = q + y.len() + 1;
            lemma_joined(toks, r - 1, comma, z + close);
            lemma_joined(toks, r, z, close);
            lemma_token(toks, q - 1, comma, 0);
            lemma_token(toks, r - 1, comma, 0);
            lemma_token(toks, r + z.len(), close, 0);
            lemma_first(*a, 0);
            lemma_first(*b, 0);
            lemma_first(*c, 0);
            lemma_token(toks, p, x, 0);
            lemma_reads(*a, 0, toks, p);
            lemma_reads(*b, 0, toks, q);
            lemma_reads(*c, 0, toks, r);
            assert(whole(*a, toks, p, p + x.len()));
            assert(whole(*b, toks, q, q + y.len()));
            assert(whole(*c, toks, r, r + z.len()));
            let none = Seq::<ExprView>::empty();
            assert(none.push(*a).push(*b).push(*c) =~= args);
            assert(crate::script::parser::more_arguments_at(toks, r, none.push(*a).push(*b))
                == Ok::<(Seq<ExprView>, int), crate::script::ScriptErrorView>(
                (args, r + z.len() + 1),
            ));
            assert(crate::script::parser::more_arguments_at(toks, q, none.push(*a))
                == crate::script::parser::more_arguments_at(toks, r, none.push(*a).push(*b)));
            assert(crate::script::parser::more_arguments_at(toks, p, none)
                == crate::script::parser::more_arguments_at(toks, q, none.push(*a)));
            reveal_strlit("if");
            reveal_strlit("while");
            assert("if"@.len() != "while"@.len());
        },
        _ => {},
    }
}

#[verifier::rlimit(30)]
proof fn lemma_block_form(e: ExprView, toks: Tokens, pos: int)
    requires
        e is While || e is Loop,
        callable(e),
        stands(toks, pos, unbracketed(e)),
    ensures
        crate::script::parser::primary_at(toks, pos) == Ok::<
            (ExprView, int),
            crate::script::ScriptErrorView,
        >((e, pos + unbracketed(e).len())),
    decreases e, 0int,
{
    reveal_strlit("if");
    reveal_strlit("while");
    reveal_strlit("loop");
    assert("if"@.len() != "while"@.len() && "if"@.len() != "loop"@.len() && "while"@.len()
        != "loop"@.len());
    let (word, a, body) = match e {
        ExprView::While(a, body) => ("while"@, a, body),
        ExprView::Loop(a, body) => ("loop"@, a, body),
        _ => ("loop"@, Box::new(e), Seq::empty()),
    };
    let head = seq![TokenView::Ident(word), TokenView::LParen];
    let x = written(*a, 0);
    let turn = seq![TokenView::RParen, TokenView::LParen];
    let inner = sequenced(body, 0);
    let close = seq![TokenView::RParen];
    assert(unbracketed(e) =~= head + (x + (turn + (inner + close))));
    lemma_joined(toks, pos, head, x + (turn + (inner + close)));
    lemma_token(toks, pos, head, 0);
    lemma_token(toks, pos, head, 1);
    lemma_joined(toks, pos + 2, x, turn + (inner + close));
    let q = pos + 2 + x.len();
    lemma_joined(toks, q, turn, inner + close);
    lemma_token(toks, q, turn, 0);
    lemma_token(toks, q, turn, 1);
    lemma_joined(toks, q + 2, inner, close);
    lemma_token(toks, q + 2 + inner.len(), close, 0);
    lemma_first(*a, 0);
    lemma_token(toks, pos + 2, x, 0);
    match e {
        ExprView::While(a, body) => {
            lemma_reads(*a, 0, toks, pos + 2);
            lemma_block(body, 0, toks, q + 2);
        },
        ExprView::Loop(a, body) => {
            lemma_reads(*a, 0, toks, pos + 2);
            lemma_block(body, 0, toks, q + 2);
            assert(Seq::<ExprView>::empty().push(*a) =~= seq![*a]);
        },
        _ => {},
    }
    assert(body.take(0) =~= Seq::<StmtView>::empty());
}

proof fn lemma_statement(s: StmtView, toks: Tokens, pos: int)
    requires
        stmt_callable(s),
        stands(toks, pos, stmt_written(s)),
        crate::script::parser::token_at(toks, pos + stmt_written(s).len()) == Some(
            TokenView::Semicolon,
        ),
    ensures
        crate::script::parser::statement_at(toks, pos) == Ok::<
            (StmtView, int),
            crate::script::ScriptErrorView,
        >((s, pos + stmt_written(s).len())),
        stmt_written(s).len() > 0,
        ({
            let t = stmt_written(s)[0];
            starts(t) || t == TokenView::Op(OpTok::Minus) || t == TokenView::Op(OpTok::Not)
        }),
    decreases s, 0int,
{
    match s {
        StmtView::Assign { name, op, value } => {
            let head = seq![TokenView::Ident(name), TokenView::Op(assign_sign(op))];
            let x = written(value, 0);
            lemma_joined(toks, pos, head, x);
            lemma_token(toks, pos, head, 0);
            lemma_token(toks, pos, head, 1);
            lemma_first(value, 0);
            lemma_reads(value, 0, toks, pos + 2);
        },
        StmtView::Expr(e) => {
            let x = written(e, 0);
            lemma_first(e, 0);
            lemma_token(toks, pos, x, 0);
            if x.len() > 1 {
                lemma_token(toks, pos, x, 1);
            }
            lemma_reads(e, 0, toks, pos);
        },
    }
}

proof fn lemma_block(ss: Seq<StmtView>, i: int, toks: Tokens, pos: int)
    requires
        0 <= i <= ss.len(),
        forall|k: int| 0 <= k < ss.len() ==> stmt_callable(#[trigger] ss[k]),
        stands(toks, pos, sequenced(ss, i)),
        crate::script::parser::token_at(toks, pos + sequenced(ss, i).len()) == Some(
            TokenView::RParen,
        ),
    ensures
        crate::script::parser::more_statements_at(toks, pos, ss.take(i)) == Ok::<
            (Seq<StmtView>, int),
            crate::script::ScriptErrorView,
        >((ss, pos + sequenced(ss, i).len() + 1)),
    decreases ss, ss.len() - i,
{
    if i == ss.len() {
        assert(ss.take(i) =~= ss);
    } else {
        let x = stmt_written(ss[i]);
        let rest = sequenced(ss, i + 1);
        let mark = seq![TokenView::Semicolon];
        assert(sequenced(ss, i) =~= x + (mark + rest));
        lemma_joined(toks, pos, x, mark + rest);
        lemma_joined(toks, pos + x.len(), mark, rest);
        lemma_token(toks, pos + x.len(), mark, 0);
        lemma_statement(ss[i], toks, pos);
        lemma_token(toks, pos, x, 0);
        lemma_block(ss, i + 1, toks, pos + x.len() + 1);
        assert(ss.take(i).push(ss[i]) =~= ss.take(i + 1));
        assert(crate::script::parser::more_statements_at(toks, pos + x.len(), ss.take(i + 1))
            == crate::script::parser::more_statements_at(
            toks,
            pos + x.len() + 1,
            ss.take(i + 1),
        ));
    }
}

/// Reading an expression gives it back: brackets may be left out where the operators of the inner
/// expression bind tighter, or as tightly and to the left of one that groups to the left.
pub proof fn law_written_expressions_read_back(e: ExprView, toks: Tokens, pos: int)
    requires
        callable(e),
        stands(toks, pos, written(e, 0)),
        crate::script::parser::token_at(toks, pos + written(e, 0).len()) matches Some(t)
            ==> t is Semicolon || t is RParen || t is Comma,
    ensures
        crate::script::parser::expr_at(toks, pos) == Ok::<
            (ExprView, int),
            crate::script::ScriptErrorView,
        >((e, pos + written(e, 0).len())),
{
    lemma_reads(e, 0, toks, pos);
}

proof fn lemma_filed(s: StmtView, toks: Tokens, pos: int, section: Section, ast: AstView)
    requires
        stmt_callable(s),
        stands(toks, pos, stmt_written(s)),
        crate::script::parser::token_at(toks, pos + stmt_written(s).len()) == Some(
            TokenView::Semicolon,
        ),
    ensures
        crate::script::parser::program_from(toks, pos, section, ast)
            == crate::script::parser::program_from(
            toks,
            pos + stmt_written(s).len() + 1,
            section,
            crate::script::parser::filed(ast, section, s),
        ),
{
    lemma_statement(s, toks, pos);
    lemma_token(toks, pos, stmt_written(s), 0);
}

#[verifier::rlimit(30)]
proof fn lemma_section(
    ss: Seq<StmtView>,
    i: int,
    toks: Tokens,
    pos: int,
    section: Section,
    ast: AstView,
)
    requires
        0 <= i <= ss.len(),
        section != Section::Block,
        forall|k: int| 0 <= k < ss.len() ==> stmt_callable(#[trigger] ss[k]),
        stands(toks, pos, sequenced(ss, i)),
    ensures
        crate::script::parser::program_from(toks, pos, section, ast)
            == crate::script::parser::program_from(
            toks,
            pos + sequenced(ss, i).len(),
            section,
            match section {
                Section::Init => AstView { init: ast.init + ss.skip(i), ..ast },
                _ => AstView { sample: ast.sample + ss.skip(i), ..ast },
            },
        ),
    decreases ss.len() - i,
{
    if i == ss.len() {
        assert(ast.init + ss.skip(i) =~= ast.init);
        assert(ast.sample + ss.skip(i) =~= ast.sample);
    } else {
        let x = stmt_written(ss[i]);
        let rest = sequenced(ss, i + 1);
        let mark = seq![TokenView::Semicolon];
        assert(sequenced(ss, i) =~= x + (mark + rest));
        lemma_joined(toks, pos, x, mark + rest);
        lemma_joined(toks, pos + x.len(), mark, rest);
        lemma_token(toks, pos + x.len(), mark, 0);
        lemma_filed(ss[i], toks, pos, section, ast);
        let next = crate::script::parser::filed(ast, section, ss[i]);
        lemma_section(ss, i + 1, toks, pos + x.len() + 1, section, next);
        assert(ast.init.push(ss[i]) + ss.skip(i + 1) =~= ast.init + ss.skip(i));
        assert(ast.sample.push(ss[i]) + ss.skip(i + 1) =~= ast.sample + ss.skip(i));
    }
}

/// The tokens of a script: `@init` with its statements, and `@sample` with its own.
pub open spec fn script_written(ast: AstView) -> Seq<TokenView> {
    seq![TokenView::SectionInit] + sequenced(ast.init, 0) + seq![TokenView::SectionSample]
        + sequenced(ast.sample, 0)
}

/// Reading a script gives it back, each statement in its section and in its order.
pub proof fn law_written_scripts_read_back(ast: AstView, toks: Tokens)
    requires
        forall|k: int| 0 <= k < ast.init.len() ==> stmt_callable(#[trigger] ast.init[k]),
        forall|k: int| 0 <= k < ast.sample.len() ==> stmt_callable(#[trigger] ast.sample[k]),
        stands(toks, 0, script_written(ast)),
        toks.len() == script_written(ast).len(),
    ensures
        crate::script::parser::program_of(toks) == Ok::<AstView, crate::script::ScriptErrorView>(
            ast,
        ),
{
    let (a, b) = (seq![TokenView::SectionInit], seq![TokenView::SectionSample]);
    let (x, y) = (sequenced(ast.init, 0), sequenced(ast.sample, 0));
    assert(script_written(ast) =~= a + (x + (b + y)));
    lemma_joined(toks, 0, a, x + (b + y));
    lemma_token(toks, 0, a, 0);
    lemma_joined(toks, 1, x, b + y);
    let q = 1int + x.len();
    lemma_joined(toks, q, b, y);
    lemma_token(toks, q, b, 0);
    let none = AstView { init: Seq::empty(), sample: Seq::empty() };
    let half = AstView { init: ast.init, sample: Seq::empty() };
    lemma_section(ast.init, 0, toks, 1, Section::Init, none);
    assert(none.init + ast.init.skip(0) =~= ast.init);
    lemma_section(ast.sample, 0, toks, q + 1, Section::Sample, half);
    assert(half.sample + ast.sample.skip(0) =~= ast.sample);
    assert(crate::script::parser::program_from(toks, 1, Section::Init, none)
        == crate::script::parser::program_from(toks, q + 1, Section::Sample, half));
}

} // verus!
