//! Parses tokens into statements.
//!
//! Binary operators climb through five levels, `||` lowest, then `&&`, the comparisons, `+ -` and
//! `* / %`, all grouping to the left. Above them stand the prefix operators, and above those `^`,
//! which groups to the right. `if`, `while`, `loop` and calls are recognised by name.

use vstd::prelude::*;
use crate::script::lexer::{ConstKind, OpTok, Spanned, Token, TokenView};
use crate::script::{Report, ReportView, ScriptError, ScriptErrorView};
use crate::text::{decimal_text, join3, quote, same_text};

verus! {

/// A parsed script. Statements of `@block` are checked and dropped.
#[derive(Debug, PartialEq, Eq)]
pub struct Ast {
    pub init: Vec<Stmt>,
    pub sample: Vec<Stmt>,
}

/// `=` and the four compound assignments.
#[derive(Debug, Clone, Copy, PartialEq, Eq, Structural)]
pub enum AssignOp {
    Eq,
    PlusEq,
    MinusEq,
    StarEq,
    SlashEq,
}

/// A statement: an assignment to a variable, or an expression.
#[derive(Debug, PartialEq, Eq)]
pub enum Stmt {
    Assign { name: String, op: AssignOp, value: Expr },
    Expr(Expr),
}

/// The constants `$pi` and `$e`.
#[derive(Debug, Clone, Copy, PartialEq, Eq, Structural)]
pub enum Const {
    Pi,
    E,
}

/// Prefix operators.
#[derive(Debug, Clone, Copy, PartialEq, Eq, Structural)]
pub enum UnOp {
    Neg,
    Not,
}

/// Binary operators.
#[derive(Debug, Clone, Copy, PartialEq, Eq, Structural)]
pub enum BinOp {
    Add,
    Sub,
    Mul,
    Div,
    Mod,
    Pow,
    Eq,
    Ne,
    Lt,
    Le,
    Gt,
    Ge,
    And,
    Or,
}

/// An expression; the control forms are expressions too. A number is kept as its numeral.
#[derive(Debug, PartialEq, Eq)]
pub enum Expr {
    Num(String),
    Const(Const),
    Var(String),
    Unary(UnOp, Box<Expr>),
    Binary(BinOp, Box<Expr>, Box<Expr>),
    Call(String, Vec<Expr>),
    If(Box<Expr>, Box<Expr>, Box<Expr>),
    While(Box<Expr>, Vec<Stmt>),
    Loop(Box<Expr>, Vec<Stmt>),
}

/// The content of a [`Stmt`].
pub enum StmtView {
    Assign { name: Seq<char>, op: AssignOp, value: ExprView },
    Expr(ExprView),
}

/// The content of an [`Expr`].
pub enum ExprView {
    Num(Seq<char>),
    Const(Const),
    Var(Seq<char>),
    Unary(UnOp, Box<ExprView>),
    Binary(BinOp, Box<ExprView>, Box<ExprView>),
    Call(Seq<char>, Seq<ExprView>),
    If(Box<ExprView>, Box<ExprView>, Box<ExprView>),
    While(Box<ExprView>, Seq<StmtView>),
    Loop(Box<ExprView>, Seq<StmtView>),
}

/// The content of an [`Ast`].
pub struct AstView {
    pub init: Seq<StmtView>,
    pub sample: Seq<StmtView>,
}

pub open spec fn expr_view(e: Expr) -> ExprView
    decreases e,
{
    match e {
        Expr::Num(s) => ExprView::Num(s@),
        Expr::Const(c) => ExprView::Const(c),
        Expr::Var(s) => ExprView::Var(s@),
        Expr::Unary(op, a) => ExprView::Unary(op, Box::new(expr_view(*a))),
        Expr::Binary(op, a, b) => ExprView::Binary(
            op,
            Box::new(expr_view(*a)),
            Box::new(expr_view(*b)),
        ),
        Expr::Call(f, args) => ExprView::Call(f@, expr_views(args@)),
        Expr::If(a, b, c) => ExprView::If(
            Box::new(expr_view(*a)),
            Box::new(expr_view(*b)),
            Box::new(expr_view(*c)),
        ),
        Expr::While(a, body) => ExprView::While(Box::new(expr_view(*a)), stmt_views(body@)),
        Expr::Loop(a, body) => ExprView::Loop(Box::new(expr_view(*a)), stmt_views(body@)),
    }
}

pub open spec fn stmt_view(s: Stmt) -> StmtView
    decreases s,
{
    match s {
        Stmt::Assign { name, op, value } => StmtView::Assign {
            name: name@,
            op,
            value: expr_view(value),
        },
        Stmt::Expr(e) => StmtView::Expr(expr_view(e)),
    }
}

pub open spec fn expr_views(s: Seq<Expr>) -> Seq<ExprView>
    decreases s,
{
    if s.len() == 0 {
        Seq::empty()
    } else {
        expr_views(s.drop_last()).push(expr_view(s.last()))
    }
}

pub open spec fn stmt_views(s: Seq<Stmt>) -> Seq<StmtView>
    decreases s,
{
    if s.len() == 0 {
        Seq::empty()
    } else {
        stmt_views(s.drop_last()).push(stmt_view(s.last()))
    }
}

impl View for Expr {
    type V = ExprView;

    open spec fn view(&self) -> ExprView {
        expr_view(*self)
    }
}

impl View for Stmt {
    type V = StmtView;

    open spec fn view(&self) -> StmtView {
        stmt_view(*self)
    }
}

impl View for Ast {
    type V = AstView;

    open spec fn view(&self) -> AstView {
        AstView { init: stmt_views(self.init@), sample: stmt_views(self.sample@) }
    }
}

proof fn lemma_exprs_push(s: Seq<Expr>, e: Expr)
    ensures
        expr_views(s.push(e)) == expr_views(s).push(e@),
{
    assert(s.push(e).drop_last() =~= s);
}

proof fn lemma_stmts_push(s: Seq<Stmt>, e: Stmt)
    ensures
        stmt_views(s.push(e)) == stmt_views(s).push(e@),
{
    assert(s.push(e).drop_last() =~= s);
}

/// The contents of a list are the contents of its items.
pub proof fn lemma_exprs_index(s: Seq<Expr>)
    ensures
        expr_views(s).len() == s.len(),
        forall|i: int| 0 <= i < s.len() ==> #[trigger] expr_views(s)[i] == s[i]@,
    decreases s.len(),
{
    if s.len() > 0 {
        lemma_exprs_index(s.drop_last());
        assert forall|i: int| 0 <= i < s.len() implies #[trigger] expr_views(s)[i] == s[i]@ by {
            if i < s.len() - 1 {
                assert(expr_views(s.drop_last())[i] == s.drop_last()[i]@);
            }
        }
    }
}

/// The contents of a list are the contents of its items.
pub proof fn lemma_stmts_index(s: Seq<Stmt>)
    ensures
        stmt_views(s).len() == s.len(),
        forall|i: int| 0 <= i < s.len() ==> #[trigger] stmt_views(s)[i] == s[i]@,
    decreases s.len(),
{
    if s.len() > 0 {
        lemma_stmts_index(s.drop_last());
        assert forall|i: int| 0 <= i < s.len() implies #[trigger] stmt_views(s)[i] == s[i]@ by {
            if i < s.len() - 1 {
                assert(stmt_views(s.drop_last())[i] == s.drop_last()[i]@);
            }
        }
    }
}

/// The tokens a parser reads.
pub type Tokens = Seq<Spanned<TokenView>>;

/// What a parser finds at a place: a value and the place behind it, or an error.
pub type Parsed<T> = Result<(T, int), ScriptErrorView>;

/// The token at `pos`, where there is one.
pub open spec fn token_at(toks: Tokens, pos: int) -> Option<TokenView> {
    if 0 <= pos < toks.len() {
        Some(toks[pos].node)
    } else {
        None
    }
}

/// An error at the end of the input: it is placed at the last token.
pub open spec fn end_error(
    toks: Tokens,
    message: ReportView,
) -> ScriptErrorView {
    if toks.len() == 0 {
        ScriptErrorView { line: 1, col: 1, message }
    } else {
        ScriptErrorView {
            line: toks.last().line as int,
            col: toks.last().col as int,
            message,
        }
    }
}

/// An error at `pos`.
pub open spec fn error_at(
    toks: Tokens,
    pos: int,
    message: ReportView,
) -> ScriptErrorView {
    if 0 <= pos < toks.len() {
        ScriptErrorView {
            line: toks[pos].line as int,
            col: toks[pos].col as int,
            message,
        }
    } else {
        end_error(toks, message)
    }
}

/// The name of an operator token in reports.
pub open spec fn op_name(op: OpTok) -> Seq<char> {
    match op {
        OpTok::Plus => "Plus"@,
        OpTok::Minus => "Minus"@,
        OpTok::Star => "Star"@,
        OpTok::Slash => "Slash"@,
        OpTok::Percent => "Percent"@,
        OpTok::Caret => "Caret"@,
        OpTok::Assign => "Assign"@,
        OpTok::PlusEq => "PlusEq"@,
        OpTok::MinusEq => "MinusEq"@,
        OpTok::StarEq => "StarEq"@,
        OpTok::SlashEq => "SlashEq"@,
        OpTok::EqEq => "EqEq"@,
        OpTok::NotEq => "NotEq"@,
        OpTok::Lt => "Lt"@,
        OpTok::Le => "Le"@,
        OpTok::Gt => "Gt"@,
        OpTok::Ge => "Ge"@,
        OpTok::AndAnd => "AndAnd"@,
        OpTok::OrOr => "OrOr"@,
        OpTok::Not => "Not"@,
    }
}

/// How a report names a token, behind the text `lead`.
#[verifier::opaque]
pub open spec fn named(
    lead: Seq<char>,
    t: TokenView,
) -> ReportView {
    match t {
        TokenView::Num(n) => ReportView {
            before: lead + "Num("@,
            number: Some(n),
            after: ")"@,
        },
        TokenView::Ident(s) => crate::script::plain(
            lead + ("Ident("@ + crate::text::quoted(s) + ")"@),
        ),
        TokenView::Const(ConstKind::Pi) => crate::script::plain(
            lead + "Const(Pi)"@,
        ),
        TokenView::Const(ConstKind::E) => crate::script::plain(
            lead + "Const(E)"@,
        ),
        TokenView::Op(op) => crate::script::plain(
            lead + ("Op("@ + op_name(op) + ")"@),
        ),
        TokenView::LParen => crate::script::plain(lead + "LParen"@),
        TokenView::RParen => crate::script::plain(lead + "RParen"@),
        TokenView::Comma => crate::script::plain(lead + "Comma"@),
        TokenView::Semicolon => crate::script::plain(lead + "Semicolon"@),
        TokenView::SectionInit => crate::script::plain(lead + "SectionInit"@),
        TokenView::SectionSample => crate::script::plain(
            lead + "SectionSample"@,
        ),
        TokenView::SectionBlock => crate::script::plain(
            lead + "SectionBlock"@,
        ),
    }
}

/// The binary operator that a token is at a level of precedence, 0 (`||`) to 4 (`* / %`).
pub open spec fn level_op(level: int, t: Option<TokenView>) -> Option<BinOp> {
    match t {
        Some(TokenView::Op(op)) => match op {
            OpTok::OrOr if level == 0 => Some(BinOp::Or),
            OpTok::AndAnd if level == 1 => Some(BinOp::And),
            OpTok::EqEq if level == 2 => Some(BinOp::Eq),
            OpTok::NotEq if level == 2 => Some(BinOp::Ne),
            OpTok::Lt if level == 2 => Some(BinOp::Lt),
            OpTok::Le if level == 2 => Some(BinOp::Le),
            OpTok::Gt if level == 2 => Some(BinOp::Gt),
            OpTok::Ge if level == 2 => Some(BinOp::Ge),
            OpTok::Plus if level == 3 => Some(BinOp::Add),
            OpTok::Minus if level == 3 => Some(BinOp::Sub),
            OpTok::Star if level == 4 => Some(BinOp::Mul),
            OpTok::Slash if level == 4 => Some(BinOp::Div),
            OpTok::Percent if level == 4 => Some(BinOp::Mod),
            _ => None,
        },
        _ => None,
    }
}

/// The assignment that a token is.
pub open spec fn assignment(t: Option<TokenView>) -> Option<AssignOp> {
    match t {
        Some(TokenView::Op(OpTok::Assign)) => Some(AssignOp::Eq),
        Some(TokenView::Op(OpTok::PlusEq)) => Some(AssignOp::PlusEq),
        Some(TokenView::Op(OpTok::MinusEq)) => Some(AssignOp::MinusEq),
        Some(TokenView::Op(OpTok::StarEq)) => Some(AssignOp::StarEq),
        Some(TokenView::Op(OpTok::SlashEq)) => Some(AssignOp::SlashEq),
        _ => None,
    }
}

/// A bracket that must stand at `pos`: the place behind it, or an error.
pub open spec fn bracket(toks: Tokens, pos: int, open: bool) -> Result<int, ScriptErrorView> {
    let want = if open {
        "LParen"@
    } else {
        "RParen"@
    };
    match token_at(toks, pos) {
        Some(TokenView::LParen) if open => Ok(pos + 1),
        Some(TokenView::RParen) if !open => Ok(pos + 1),
        Some(t) => Err(error_at(toks, pos, named("expected "@ + want + ", found "@, t))),
        None => Err(
            end_error(
                toks,
                crate::script::plain("expected "@ + want + ", found end of input"@),
            ),
        ),
    }
}

/// Whether a parse that started at `pos` and ended at `end` has consumed a token of the input.
/// Every successful parse has (see [`lemma_parse_advances`]).
pub open spec fn advanced(toks: Tokens, pos: int, end: int) -> bool {
    pos < end <= toks.len()
}

/// The expression at `pos`.
pub open spec fn expr_at(toks: Tokens, pos: int) -> Parsed<ExprView>
    decreases toks.len() - pos, 11int,
{
    level_at(toks, pos, 0)
}

/// The expression at `pos` whose binary operators outside brackets all bind at least as tightly as
/// those of `level`.
pub open spec fn level_at(toks: Tokens, pos: int, level: int) -> Parsed<ExprView>
    decreases
        toks.len() - pos,
        (if 0 <= level < 5 {
            10 - level
        } else {
            5
        }),
{
    if !(0 <= level < 5) {
        unary_at(toks, pos)
    } else {
        match level_at(toks, pos, level + 1) {
            Err(e) => Err(e),
            Ok((left, end)) => if advanced(toks, pos, end) {
                chain_at(toks, end, level, left)
            } else {
                Ok((left, end))
            },
        }
    }
}

/// `left` and the operators of `level` that follow it at `pos`, grouped to the left.
pub open spec fn chain_at(toks: Tokens, pos: int, level: int, left: ExprView) -> Parsed<ExprView>
    decreases toks.len() - pos, 0int,
{
    match level_op(level, token_at(toks, pos)) {
        None => Ok((left, pos)),
        Some(op) => match level_at(toks, pos + 1, level + 1) {
            Err(e) => Err(e),
            Ok((right, end)) => {
                let both = ExprView::Binary(op, Box::new(left), Box::new(right));
                if advanced(toks, pos + 1, end) {
                    chain_at(toks, end, level, both)
                } else {
                    Ok((both, end))
                }
            },
        },
    }
}

/// Prefix operators and what they apply to, which a following `^` belongs to.
pub open spec fn unary_at(toks: Tokens, pos: int) -> Parsed<ExprView>
    decreases toks.len() - pos, 4int,
{
    match token_at(toks, pos) {
        Some(TokenView::Op(OpTok::Minus)) => match unary_at(toks, pos + 1) {
            Err(e) => Err(e),
            Ok((operand, end)) => Ok((ExprView::Unary(UnOp::Neg, Box::new(operand)), end)),
        },
        Some(TokenView::Op(OpTok::Not)) => match unary_at(toks, pos + 1) {
            Err(e) => Err(e),
            Ok((operand, end)) => Ok((ExprView::Unary(UnOp::Not, Box::new(operand)), end)),
        },
        _ => power_at(toks, pos),
    }
}

/// A power, grouped to the right; its exponent may have prefix operators.
pub open spec fn power_at(toks: Tokens, pos: int) -> Parsed<ExprView>
    decreases toks.len() - pos, 3int,
{
    match primary_at(toks, pos) {
        Err(e) => Err(e),
        Ok((base, end)) => if token_at(toks, end) == Some(TokenView::Op(OpTok::Caret)) && advanced(
            toks,
            pos,
            end,
        ) {
            match unary_at(toks, end + 1) {
                Err(e) => Err(e),
                Ok((exponent, q)) => Ok(
                    (ExprView::Binary(BinOp::Pow, Box::new(base), Box::new(exponent)), q),
                ),
            }
        } else {
            Ok((base, end))
        },
    }
}

/// A number, a constant, a variable, a bracketed expression, a call or a control form.
pub open spec fn primary_at(toks: Tokens, pos: int) -> Parsed<ExprView>
    decreases toks.len() - pos, 2int,
{
    match token_at(toks, pos) {
        None => Err(end_error(toks, crate::script::plain("expected expression"@))),
        Some(TokenView::Num(n)) => Ok((ExprView::Num(n), pos + 1)),
        Some(TokenView::Const(ConstKind::Pi)) => Ok((ExprView::Const(Const::Pi), pos + 1)),
        Some(TokenView::Const(ConstKind::E)) => Ok((ExprView::Const(Const::E), pos + 1)),
        Some(TokenView::LParen) => match expr_at(toks, pos + 1) {
            Err(e) => Err(e),
            Ok((inner, end)) => match bracket(toks, end, false) {
                Err(e) => Err(e),
                Ok(q) => Ok((inner, q)),
            },
        },
        Some(TokenView::Ident(name)) => if token_at(toks, pos + 1) == Some(TokenView::LParen) {
            form_at(toks, pos + 1, name)
        } else {
            Ok((ExprView::Var(name), pos + 1))
        },
        Some(t) => Err(error_at(toks, pos, named("unexpected token in expression: "@, t))),
    }
}

/// The control form or call that `name` starts, with its opening bracket at `pos`.
pub open spec fn form_at(toks: Tokens, pos: int, name: Seq<char>) -> Parsed<ExprView>
    decreases toks.len() - pos, 1int,
{
    if name == "while"@ {
        match bracketed_at(toks, pos) {
            Err(e) => Err(e),
            Ok((cond, end)) => if advanced(toks, pos, end) {
                match block_at(toks, end) {
                    Err(e) => Err(e),
                    Ok((body, q)) => Ok((ExprView::While(Box::new(cond), body), q)),
                }
            } else {
                Ok((cond, end))
            },
        }
    } else {
        match arguments_at(toks, pos) {
            Err(e) => Err(e),
            Ok((args, end)) => if name == "if"@ {
                if args.len() == 3 {
                    Ok(
                        (
                            ExprView::If(
                                Box::new(args[0]),
                                Box::new(args[1]),
                                Box::new(args[2]),
                            ),
                            end,
                        ),
                    )
                } else {
                    Err(
                        error_at(
                            toks,
                            end,
                            crate::script::plain(
                                "if(...) expects exactly 3 arguments, got "@ + crate::text::decimal(
                                    args.len(),
                                ) + ""@,
                            ),
                        ),
                    )
                }
            } else if name == "loop"@ {
                if args.len() == 1 {
                    if advanced(toks, pos, end) {
                        match block_at(toks, end) {
                            Err(e) => Err(e),
                            Ok((body, q)) => Ok((ExprView::Loop(Box::new(args[0]), body), q)),
                        }
                    } else {
                        Ok((args[0], end))
                    }
                } else if args.len() == 2 {
                    Ok((ExprView::Loop(Box::new(args[0]), seq![StmtView::Expr(args[1])]), end))
                } else {
                    Err(
                        error_at(
                            toks,
                            end,
                            crate::script::plain(
                                "loop(...) expects 1 (count, then body block) or 2 (count, body) arguments, got "@
                                    + crate::text::decimal(args.len()) + ""@,
                            ),
                        ),
                    )
                }
            } else {
                Ok((ExprView::Call(name, args), end))
            },
        }
    }
}

/// An expression in brackets.
pub open spec fn bracketed_at(toks: Tokens, pos: int) -> Parsed<ExprView>
    decreases toks.len() - pos, 0int,
{
    match bracket(toks, pos, true) {
        Err(e) => Err(e),
        Ok(start) => match expr_at(toks, start) {
            Err(e) => Err(e),
            Ok((inner, end)) => match bracket(toks, end, false) {
                Err(e) => Err(e),
                Ok(q) => Ok((inner, q)),
            },
        },
    }
}

/// A list of arguments in brackets, which may be empty.
pub open spec fn arguments_at(toks: Tokens, pos: int) -> Parsed<Seq<ExprView>>
    decreases toks.len() - pos, 0int,
{
    match bracket(toks, pos, true) {
        Err(e) => Err(e),
        Ok(start) => if token_at(toks, start) == Some(TokenView::RParen) {
            Ok((Seq::empty(), start + 1))
        } else {
            more_arguments_at(toks, start, Seq::empty())
        },
    }
}

/// Arguments up to the closing bracket, behind those that are `done`.
pub open spec fn more_arguments_at(toks: Tokens, pos: int, done: Seq<ExprView>) -> Parsed<
    Seq<ExprView>,
>
    decreases toks.len() - pos, 12int,
{
    match expr_at(toks, pos) {
        Err(e) => Err(e),
        Ok((arg, end)) => match token_at(toks, end) {
            Some(TokenView::Comma) => if advanced(toks, pos, end) {
                more_arguments_at(toks, end + 1, done.push(arg))
            } else {
                Ok((done, end))
            },
            Some(TokenView::RParen) => Ok((done.push(arg), end + 1)),
            Some(_) => Err(
                error_at(toks, end, crate::script::plain("expected ',' or ')' in argument list"@)),
            ),
            None => Err(
                end_error(toks, crate::script::plain("unclosed argument list: expected ')'"@)),
            ),
        },
    }
}

/// Statements in brackets, with `;` between them.
pub open spec fn block_at(toks: Tokens, pos: int) -> Parsed<Seq<StmtView>>
    decreases toks.len() - pos, 0int,
{
    match bracket(toks, pos, true) {
        Err(e) => Err(e),
        Ok(start) => more_statements_at(toks, start, Seq::empty()),
    }
}

/// Statements up to the closing bracket, behind those that are `done`.
pub open spec fn more_statements_at(toks: Tokens, pos: int, done: Seq<StmtView>) -> Parsed<
    Seq<StmtView>,
>
    decreases toks.len() - pos, 13int,
{
    match token_at(toks, pos) {
        Some(TokenView::RParen) => Ok((done, pos + 1)),
        Some(TokenView::Semicolon) => more_statements_at(toks, pos + 1, done),
        None => Err(end_error(toks, crate::script::plain("unclosed block: expected ')'"@))),
        Some(_) => match statement_at(toks, pos) {
            Err(e) => Err(e),
            Ok((stmt, end)) => match token_at(toks, end) {
                Some(TokenView::Semicolon) | Some(TokenView::RParen) => if advanced(
                    toks,
                    pos,
                    end,
                ) {
                    more_statements_at(toks, end, done.push(stmt))
                } else {
                    Ok((done, end))
                },
                Some(_) => Err(
                    error_at(toks, end, crate::script::plain("expected ';' or ')' in block"@)),
                ),
                None => Err(end_error(toks, crate::script::plain("unclosed block: expected ')'"@))),
            },
        },
    }
}

/// The statement at `pos`: an assignment where a name and an assignment operator stand there.
pub open spec fn statement_at(toks: Tokens, pos: int) -> Parsed<StmtView>
    decreases toks.len() - pos, 12int,
{
    match (token_at(toks, pos), assignment(token_at(toks, pos + 1))) {
        (Some(TokenView::Ident(name)), Some(op)) => match expr_at(toks, pos + 2) {
            Err(e) => Err(e),
            Ok((value, end)) => Ok((StmtView::Assign { name, op, value }, end)),
        },
        _ => match expr_at(toks, pos) {
            Err(e) => Err(e),
            Ok((e, end)) => Ok((StmtView::Expr(e), end)),
        },
    }
}

/// The sections of a script.
#[derive(Debug, Clone, Copy, PartialEq, Eq, Structural)]
pub enum Section {
    Init,
    Sample,
    Block,
}

/// `ast` with `stmt` added to a section; a statement of `@block` is dropped.
pub open spec fn filed(ast: AstView, section: Section, stmt: StmtView) -> AstView {
    match section {
        Section::Init => AstView { init: ast.init.push(stmt), ..ast },
        Section::Sample => AstView { sample: ast.sample.push(stmt), ..ast },
        Section::Block => ast,
    }
}

/// The place behind a `;` at `pos`, or `pos` where there is none.
pub open spec fn past_semicolon(toks: Tokens, pos: int) -> int {
    if token_at(toks, pos) == Some(TokenView::Semicolon) {
        pos + 1
    } else {
        pos
    }
}

/// `ast` with the statements from `pos` on, where `section` is being filled.
pub open spec fn program_from(toks: Tokens, pos: int, section: Section, ast: AstView) -> Result<
    AstView,
    ScriptErrorView,
>
    decreases toks.len() - pos,
{
    match token_at(toks, pos) {
        None => Ok(ast),
        Some(TokenView::SectionInit) => program_from(toks, pos + 1, Section::Init, ast),
        Some(TokenView::SectionSample) => program_from(toks, pos + 1, Section::Sample, ast),
        Some(TokenView::SectionBlock) => program_from(toks, pos + 1, Section::Block, ast),
        Some(TokenView::Semicolon) => program_from(toks, pos + 1, section, ast),
        Some(_) => match statement_at(toks, pos) {
            Err(e) => Err(e),
            Ok((stmt, end)) => if advanced(toks, pos, end) {
                program_from(toks, past_semicolon(toks, end), section, filed(ast, section, stmt))
            } else {
                Ok(ast)
            },
        },
    }
}

/// The script that a token list is: what stands before any section marker belongs to `@sample`.
pub open spec fn program_of(toks: Tokens) -> Result<AstView, ScriptErrorView> {
    program_from(
        toks,
        0,
        Section::Sample,
        AstView { init: Seq::empty(), sample: Seq::empty() },
    )
}

/// A parse that succeeds consumes at least one token and stays within the input.
pub proof fn lemma_parse_advances(toks: Tokens, pos: int)
    requires
        0 <= pos <= toks.len(),
    ensures
        expr_at(toks, pos) matches Ok((_, end)) ==> advanced(toks, pos, end),
        statement_at(toks, pos) matches Ok((_, end)) ==> advanced(toks, pos, end),
        arguments_at(toks, pos) matches Ok((_, end)) ==> advanced(toks, pos, end),
        block_at(toks, pos) matches Ok((_, end)) ==> advanced(toks, pos, end),
        bracketed_at(toks, pos) matches Ok((_, end)) ==> advanced(toks, pos, end),
    decreases toks.len() - pos, 3int, 0int,
{
    lemma_level_advances(toks, pos, 0);
    if pos < toks.len() {
        lemma_parse_advances(toks, pos + 1);
        if pos + 2 <= toks.len() {
            lemma_parse_advances(toks, pos + 2);
        }
        if token_at(toks, pos) == Some(TokenView::LParen) {
            lemma_lists_advance(toks, pos + 1, Seq::empty(), Seq::empty());
        }
    }
}

proof fn lemma_lists_advance(toks: Tokens, pos: int, args: Seq<ExprView>, stmts: Seq<StmtView>)
    requires
        0 <= pos <= toks.len(),
    ensures
        more_arguments_at(toks, pos, args) matches Ok((_, end)) ==> advanced(toks, pos, end),
        more_statements_at(toks, pos, stmts) matches Ok((_, end)) ==> advanced(toks, pos, end),
    decreases toks.len() - pos, 4int, 0int,
{
    lemma_parse_advances(toks, pos);
    if let Ok((arg, end)) = expr_at(toks, pos) {
        if token_at(toks, end) == Some(TokenView::Comma) {
            lemma_lists_advance(toks, end + 1, args.push(arg), stmts);
        }
    }
    if token_at(toks, pos) == Some(TokenView::Semicolon) {
        lemma_lists_advance(toks, pos + 1, args, stmts);
    }
    if let Ok((stmt, end)) = statement_at(toks, pos) {
        lemma_lists_advance(toks, end, args, stmts.push(stmt));
    }
}

/// The same of the expressions of a level.
pub proof fn lemma_level_advances(toks: Tokens, pos: int, level: int)
    requires
        0 <= pos <= toks.len(),
        0 <= level <= 5,
    ensures
        level_at(toks, pos, level) matches Ok((_, end)) ==> advanced(toks, pos, end),
    decreases toks.len() - pos, 2int, 5 - level,
{
    if level < 5 {
        lemma_level_advances(toks, pos, level + 1);
        if let Ok((left, end)) = level_at(toks, pos, level + 1) {
            lemma_chain_stays(toks, end, level, left);
        }
    } else {
        lemma_unary_advances(toks, pos);
    }
}

proof fn lemma_chain_stays(toks: Tokens, pos: int, level: int, left: ExprView)
    requires
        0 <= pos <= toks.len(),
        0 <= level < 5,
    ensures
        chain_at(toks, pos, level, left) matches Ok((_, end)) ==> pos <= end <= toks.len(),
    decreases toks.len() - pos, 2int, 6int,
{
    if let Some(op) = level_op(level, token_at(toks, pos)) {
        lemma_level_advances(toks, pos + 1, level + 1);
        if let Ok((right, end)) = level_at(toks, pos + 1, level + 1) {
            lemma_chain_stays(
                toks,
                end,
                level,
                ExprView::Binary(op, Box::new(left), Box::new(right)),
            );
        }
    }
}

proof fn lemma_unary_advances(toks: Tokens, pos: int)
    requires
        0 <= pos <= toks.len(),
    ensures
        unary_at(toks, pos) matches Ok((_, end)) ==> advanced(toks, pos, end),
    decreases toks.len() - pos, 1int, 0int,
{
    if pos < toks.len() {
        lemma_unary_advances(toks, pos + 1);
    }
    lemma_primary_advances(toks, pos);
    if let Ok((_, end)) = primary_at(toks, pos) {
        if end < toks.len() {
            lemma_unary_advances(toks, end + 1);
        }
    }
    assert(power_at(toks, pos) matches Ok((_, end)) ==> advanced(toks, pos, end));
}

/// The same of a number, a constant, a variable, a bracketed expression, a call or a control form.
pub proof fn lemma_primary_advances(toks: Tokens, pos: int)
    requires
        0 <= pos <= toks.len(),
    ensures
        primary_at(toks, pos) matches Ok((_, end)) ==> advanced(toks, pos, end),
    decreases toks.len() - pos, 0int, 0int,
{
    if pos < toks.len() {
        lemma_parse_advances(toks, pos + 1);
        if let Some(TokenView::Ident(name)) = token_at(toks, pos) {
            if let Ok((_, end)) = bracketed_at(toks, pos + 1) {
                lemma_parse_advances(toks, end);
            }
            if let Ok((_, end)) = arguments_at(toks, pos + 1) {
                lemma_parse_advances(toks, end);
            }
            assert(form_at(toks, pos + 1, name) matches Ok((_, end)) ==> advanced(toks, pos, end));
        }
    }
}

spec fn expr_shown(r: Result<(Expr, usize), ScriptError>, s: Parsed<ExprView>) -> bool {
    match (r, s) {
        (Ok((e, p)), Ok((v, q))) => e@ == v && p == q,
        (Err(a), Err(b)) => a@ == b,
        _ => false,
    }
}

spec fn exprs_shown(r: Result<(Vec<Expr>, usize), ScriptError>, s: Parsed<Seq<ExprView>>) -> bool {
    match (r, s) {
        (Ok((e, p)), Ok((v, q))) => expr_views(e@) == v && p == q,
        (Err(a), Err(b)) => a@ == b,
        _ => false,
    }
}

spec fn stmt_shown(r: Result<(Stmt, usize), ScriptError>, s: Parsed<StmtView>) -> bool {
    match (r, s) {
        (Ok((e, p)), Ok((v, q))) => e@ == v && p == q,
        (Err(a), Err(b)) => a@ == b,
        _ => false,
    }
}

spec fn stmts_shown(r: Result<(Vec<Stmt>, usize), ScriptError>, s: Parsed<Seq<StmtView>>) -> bool {
    match (r, s) {
        (Ok((e, p)), Ok((v, q))) => stmt_views(e@) == v && p == q,
        (Err(a), Err(b)) => a@ == b,
        _ => false,
    }
}

spec fn place_shown(r: Result<usize, ScriptError>, s: Result<int, ScriptErrorView>) -> bool {
    match (r, s) {
        (Ok(p), Ok(q)) => p == q,
        (Err(a), Err(b)) => a@ == b,
        _ => false,
    }
}

spec fn views(tokens: &[Spanned<Token>]) -> Tokens {
    crate::script::lexer::token_views(tokens@)
}

fn peek(tokens: &[Spanned<Token>], pos: usize) -> (r: Option<&Token>)
    ensures
        match r {
            Some(t) => token_at(views(tokens), pos as int) == Some(t@) && pos < tokens@.len()
                <= usize::MAX,
            None => token_at(views(tokens), pos as int) is None && pos >= tokens@.len(),
        },
{
    if pos < tokens.len() {
        Some(&tokens[pos].node)
    } else {
        None
    }
}

fn end_report(tokens: &[Spanned<Token>], message: Report) -> (r: ScriptError)
    ensures
        r@ == end_error(views(tokens), message@),
{
    if tokens.len() == 0 {
        ScriptError { line: 1, col: 1, message }
    } else {
        let last = &tokens[tokens.len() - 1];
        ScriptError { line: last.line, col: last.col, message }
    }
}

fn report_at(tokens: &[Spanned<Token>], pos: usize, message: Report) -> (r: ScriptError)
    ensures
        r@ == error_at(views(tokens), pos as int, message@),
{
    if pos < tokens.len() {
        let t = &tokens[pos];
        ScriptError { line: t.line, col: t.col, message }
    } else {
        end_report(tokens, message)
    }
}

fn op_text(op: OpTok) -> (r: &'static str)
    ensures
        r@ == op_name(op),
{
    match op {
        OpTok::Plus => "Plus",
        OpTok::Minus => "Minus",
        OpTok::Star => "Star",
        OpTok::Slash => "Slash",
        OpTok::Percent => "Percent",
        OpTok::Caret => "Caret",
        OpTok::Assign => "Assign",
        OpTok::PlusEq => "PlusEq",
        OpTok::MinusEq => "MinusEq",
        OpTok::StarEq => "StarEq",
        OpTok::SlashEq => "SlashEq",
        OpTok::EqEq => "EqEq",
        OpTok::NotEq => "NotEq",
        OpTok::Lt => "Lt",
        OpTok::Le => "Le",
        OpTok::Gt => "Gt",
        OpTok::Ge => "Ge",
        OpTok::AndAnd => "AndAnd",
        OpTok::OrOr => "OrOr",
        OpTok::Not => "Not",
    }
}

fn naming(lead: String, t: &Token) -> (r: Report)
    ensures
        r@ == named(lead@, t@),
{
    proof {
        reveal(named);
    }
    let mut text = lead;
    match t {
        Token::Num(n) => {
            text.append("Num(");
            return Report { before: text, number: Some(n.clone()), after: ")".to_owned() };
        },
        Token::Ident(s) => {
            text.append(join3("Ident(", quote(s.as_str()).as_str(), ")").as_str());
        },
        Token::Const(ConstKind::Pi) => {
            text.append("Const(Pi)");
        },
        Token::Const(ConstKind::E) => {
            text.append("Const(E)");
        },
        Token::Op(op) => {
            text.append(join3("Op(", op_text(*op), ")").as_str());
        },
        Token::LParen => {
            text.append("LParen");
        },
        Token::RParen => {
            text.append("RParen");
        },
        Token::Comma => {
            text.append("Comma");
        },
        Token::Semicolon => {
            text.append("Semicolon");
        },
        Token::SectionInit => {
            text.append("SectionInit");
        },
        Token::SectionSample => {
            text.append("SectionSample");
        },
        Token::SectionBlock => {
            text.append("SectionBlock");
        },
    }
    Report::plain(text)
}

fn complaint(text: &str) -> (r: Report)
    ensures
        r@ == crate::script::plain(text@),
{
    Report::plain(text.to_owned())
}

fn expect(tokens: &[Spanned<Token>], pos: usize, open: bool) -> (r: Result<usize, ScriptError>)
    ensures
        place_shown(r, bracket(views(tokens), pos as int, open)),
        r matches Ok(p) ==> pos < p <= tokens@.len(),
{
    let want = if open {
        "LParen"
    } else {
        "RParen"
    };
    match peek(tokens, pos) {
        Some(t) => {
            let fits = match t {
                Token::LParen => open,
                Token::RParen => !open,
                _ => false,
            };
            if fits {
                Ok(pos + 1)
            } else {
                Err(report_at(tokens, pos, naming(join3("expected ", want, ", found "), t)))
            }
        },
        None => Err(
            end_report(tokens, Report::plain(join3("expected ", want, ", found end of input"))),
        ),
    }
}

fn binary_op(level: u8, t: Option<&Token>) -> (r: Option<BinOp>)
    ensures
        r == level_op(
            level as int,
            match t {
                Some(t) => Some(t@),
                None => None,
            },
        ),
{
    match t {
        Some(Token::Op(op)) => match op {
            OpTok::OrOr if level == 0 => Some(BinOp::Or),
            OpTok::AndAnd if level == 1 => Some(BinOp::And),
            OpTok::EqEq if level == 2 => Some(BinOp::Eq),
            OpTok::NotEq if level == 2 => Some(BinOp::Ne),
            OpTok::Lt if level == 2 => Some(BinOp::Lt),
            OpTok::Le if level == 2 => Some(BinOp::Le),
            OpTok::Gt if level == 2 => Some(BinOp::Gt),
            OpTok::Ge if level == 2 => Some(BinOp::Ge),
            OpTok::Plus if level == 3 => Some(BinOp::Add),
            OpTok::Minus if level == 3 => Some(BinOp::Sub),
            OpTok::Star if level == 4 => Some(BinOp::Mul),
            OpTok::Slash if level == 4 => Some(BinOp::Div),
            OpTok::Percent if level == 4 => Some(BinOp::Mod),
            _ => None,
        },
        _ => None,
    }
}

fn assign_op(t: Option<&Token>) -> (r: Option<AssignOp>)
    ensures
        r == assignment(
            match t {
                Some(t) => Some(t@),
                None => None,
            },
        ),
{
    match t {
        Some(Token::Op(OpTok::Assign)) => Some(AssignOp::Eq),
        Some(Token::Op(OpTok::PlusEq)) => Some(AssignOp::PlusEq),
        Some(Token::Op(OpTok::MinusEq)) => Some(AssignOp::MinusEq),
        Some(Token::Op(OpTok::StarEq)) => Some(AssignOp::StarEq),
        Some(Token::Op(OpTok::SlashEq)) => Some(AssignOp::SlashEq),
        _ => None,
    }
}

fn parse_expr(tokens: &[Spanned<Token>], pos: usize) -> (r: Result<(Expr, usize), ScriptError>)
    requires
        pos <= tokens@.len(),
    ensures
        expr_shown(r, expr_at(views(tokens), pos as int)),
        r matches Ok((_, end)) ==> pos < end <= tokens@.len(),
    decreases tokens@.len() - pos, 11int,
{
    parse_level(tokens, pos, 0)
}

fn parse_level(tokens: &[Spanned<Token>], pos: usize, level: u8) -> (r: Result<
    (Expr, usize),
    ScriptError,
>)
    requires
        pos <= tokens@.len(),
        level <= 5,
    ensures
        expr_shown(r, level_at(views(tokens), pos as int, level as int)),
        r matches Ok((_, end)) ==> pos < end <= tokens@.len(),
    decreases tokens@.len() - pos, 10 - level,
{
    if level == 5 {
        return parse_unary(tokens, pos);
    }
    let (first, start) = match parse_level(tokens, pos, level + 1) {
        Ok(x) => x,
        Err(e) => {
            return Err(e);
        },
    };
    let mut left = first;
    let mut end: usize = start;
    loop
        invariant
            level < 5,
            pos < end <= tokens@.len(),
            level_at(views(tokens), pos as int, level as int) == chain_at(
                views(tokens),
                end as int,
                level as int,
                left@,
            ),
        decreases tokens@.len() - end,
    {
        let op = match binary_op(level, peek(tokens, end)) {
            Some(op) => op,
            None => {
                return Ok((left, end));
            },
        };
        match parse_level(tokens, end + 1, level + 1) {
            Ok((right, next)) => {
                left = Expr::Binary(op, Box::new(left), Box::new(right));
                end = next;
            },
            Err(e) => {
                return Err(e);
            },
        }
    }
}

fn parse_unary(tokens: &[Spanned<Token>], pos: usize) -> (r: Result<(Expr, usize), ScriptError>)
    requires
        pos <= tokens@.len(),
    ensures
        expr_shown(r, unary_at(views(tokens), pos as int)),
        r matches Ok((_, end)) ==> pos < end <= tokens@.len(),
    decreases tokens@.len() - pos, 4int,
{
    let op = match peek(tokens, pos) {
        Some(Token::Op(OpTok::Minus)) => UnOp::Neg,
        Some(Token::Op(OpTok::Not)) => UnOp::Not,
        _ => {
            return parse_power(tokens, pos);
        },
    };
    match parse_unary(tokens, pos + 1) {
        Ok((operand, end)) => Ok((Expr::Unary(op, Box::new(operand)), end)),
        Err(e) => Err(e),
    }
}

fn parse_power(tokens: &[Spanned<Token>], pos: usize) -> (r: Result<(Expr, usize), ScriptError>)
    requires
        pos <= tokens@.len(),
    ensures
        expr_shown(r, power_at(views(tokens), pos as int)),
        r matches Ok((_, end)) ==> pos < end <= tokens@.len(),
    decreases tokens@.len() - pos, 3int,
{
    let (base, end) = match parse_primary(tokens, pos) {
        Ok(x) => x,
        Err(e) => {
            return Err(e);
        },
    };
    match peek(tokens, end) {
        Some(Token::Op(OpTok::Caret)) => match parse_unary(tokens, end + 1) {
            Ok((exponent, q)) => Ok(
                (Expr::Binary(BinOp::Pow, Box::new(base), Box::new(exponent)), q),
            ),
            Err(e) => Err(e),
        },
        _ => Ok((base, end)),
    }
}

fn parse_primary(tokens: &[Spanned<Token>], pos: usize) -> (r: Result<(Expr, usize), ScriptError>)
    requires
        pos <= tokens@.len(),
    ensures
        expr_shown(r, primary_at(views(tokens), pos as int)),
        r matches Ok((_, end)) ==> pos < end <= tokens@.len(),
    decreases tokens@.len() - pos, 2int,
{
    match peek(tokens, pos) {
        None => Err(end_report(tokens, complaint("expected expression"))),
        Some(Token::Num(n)) => Ok((Expr::Num(n.clone()), pos + 1)),
        Some(Token::Const(ConstKind::Pi)) => Ok((Expr::Const(Const::Pi), pos + 1)),
        Some(Token::Const(ConstKind::E)) => Ok((Expr::Const(Const::E), pos + 1)),
        Some(Token::LParen) => match parse_expr(tokens, pos + 1) {
            Ok((inner, end)) => match expect(tokens, end, false) {
                Ok(q) => Ok((inner, q)),
                Err(e) => Err(e),
            },
            Err(e) => Err(e),
        },
        Some(Token::Ident(name)) => {
            let called = match peek(tokens, pos + 1) {
                Some(Token::LParen) => true,
                _ => false,
            };
            if called {
                parse_form(tokens, pos + 1, name)
            } else {
                Ok((Expr::Var(name.clone()), pos + 1))
            }
        },
        Some(t) => Err(
            report_at(
                tokens,
                pos,
                naming("unexpected token in expression: ".to_owned(), t),
            ),
        ),
    }
}

fn parse_form(tokens: &[Spanned<Token>], pos: usize, name: &String) -> (r: Result<
    (Expr, usize),
    ScriptError,
>)
    requires
        pos <= tokens@.len(),
    ensures
        expr_shown(r, form_at(views(tokens), pos as int, name@)),
        r matches Ok((_, end)) ==> pos < end <= tokens@.len(),
    decreases tokens@.len() - pos, 1int,
{
    if same_text(name.as_str(), "while") {
        let (cond, end) = match parse_bracketed(tokens, pos) {
            Ok(x) => x,
            Err(e) => {
                return Err(e);
            },
        };
        return match parse_block(tokens, end) {
            Ok((body, q)) => Ok((Expr::While(Box::new(cond), body), q)),
            Err(e) => Err(e),
        };
    }
    let (parsed, end) = match parse_arguments(tokens, pos) {
        Ok(x) => x,
        Err(e) => {
            return Err(e);
        },
    };
    let mut args = parsed;
    proof {
        lemma_exprs_index(args@);
    }
    let n: usize = args.len();
    if same_text(name.as_str(), "if") {
        if n == 3 {
            let third = args.pop().unwrap();
            let second = args.pop().unwrap();
            let first = args.pop().unwrap();
            Ok((Expr::If(Box::new(first), Box::new(second), Box::new(third)), end))
        } else {
            let text = join3(
                "if(...) expects exactly 3 arguments, got ",
                decimal_text(n as u64).as_str(),
                "",
            );
            Err(report_at(tokens, end, Report::plain(text)))
        }
    } else if same_text(name.as_str(), "loop") {
        if n == 1 {
            let count = args.pop().unwrap();
            match parse_block(tokens, end) {
                Ok((body, q)) => Ok((Expr::Loop(Box::new(count), body), q)),
                Err(e) => Err(e),
            }
        } else if n == 2 {
            let body = Stmt::Expr(args.pop().unwrap());
            let count = args.pop().unwrap();
            let mut stmts: Vec<Stmt> = Vec::new();
            stmts.push(body);
            proof {
                lemma_stmts_push(Seq::empty(), body);
                assert(stmts@ =~= Seq::<Stmt>::empty().push(body));
                assert(stmt_views(stmts@) =~= seq![body@]);
            }
            Ok((Expr::Loop(Box::new(count), stmts), end))
        } else {
            let text = join3(
                "loop(...) expects 1 (count, then body block) or 2 (count, body) arguments, got ",
                decimal_text(n as u64).as_str(),
                "",
            );
            Err(report_at(tokens, end, Report::plain(text)))
        }
    } else {
        Ok((Expr::Call(name.clone(), args), end))
    }
}

fn parse_bracketed(tokens: &[Spanned<Token>], pos: usize) -> (r: Result<(Expr, usize), ScriptError>)
    requires
        pos <= tokens@.len(),
    ensures
        expr_shown(r, bracketed_at(views(tokens), pos as int)),
        r matches Ok((_, end)) ==> pos < end <= tokens@.len(),
    decreases tokens@.len() - pos, 0int,
{
    let start: usize = match expect(tokens, pos, true) {
        Ok(p) => p,
        Err(e) => {
            return Err(e);
        },
    };
    match parse_expr(tokens, start) {
        Ok((inner, end)) => match expect(tokens, end, false) {
            Ok(q) => Ok((inner, q)),
            Err(e) => Err(e),
        },
        Err(e) => Err(e),
    }
}

fn parse_arguments(tokens: &[Spanned<Token>], pos: usize) -> (r: Result<
    (Vec<Expr>, usize),
    ScriptError,
>)
    requires
        pos <= tokens@.len(),
    ensures
        exprs_shown(r, arguments_at(views(tokens), pos as int)),
        r matches Ok((_, end)) ==> pos < end <= tokens@.len(),
    decreases tokens@.len() - pos, 0int,
{
    let start: usize = match expect(tokens, pos, true) {
        Ok(p) => p,
        Err(e) => {
            return Err(e);
        },
    };
    let mut args: Vec<Expr> = Vec::new();
    if let Some(Token::RParen) = peek(tokens, start) {
        return Ok((args, start + 1));
    }
    let mut at: usize = start;
    loop
        invariant
            pos < at <= tokens@.len(),
            arguments_at(views(tokens), pos as int) == more_arguments_at(
                views(tokens),
                at as int,
                expr_views(args@),
            ),
        decreases tokens@.len() - at,
    {
        let (arg, end) = match parse_expr(tokens, at) {
            Ok(x) => x,
            Err(e) => {
                return Err(e);
            },
        };
        proof {
            lemma_exprs_push(args@, arg);
        }
        args.push(arg);
        match peek(tokens, end) {
            Some(Token::Comma) => {
                at = end + 1;
            },
            Some(Token::RParen) => {
                return Ok((args, end + 1));
            },
            Some(_) => {
                return Err(
                    report_at(tokens, end, complaint("expected ',' or ')' in argument list")),
                );
            },
            None => {
                return Err(end_report(tokens, complaint("unclosed argument list: expected ')'")));
            },
        }
    }
}

#[verifier::rlimit(40)]
fn parse_block(tokens: &[Spanned<Token>], pos: usize) -> (r: Result<(Vec<Stmt>, usize), ScriptError>)
    requires
        pos <= tokens@.len(),
    ensures
        stmts_shown(r, block_at(views(tokens), pos as int)),
        r matches Ok((_, end)) ==> pos < end <= tokens@.len(),
    decreases tokens@.len() - pos, 0int,
{
    let start: usize = match expect(tokens, pos, true) {
        Ok(p) => p,
        Err(e) => {
            return Err(e);
        },
    };
    let mut stmts: Vec<Stmt> = Vec::new();
    let mut at: usize = start;
    loop
        invariant
            pos < at <= tokens@.len(),
            block_at(views(tokens), pos as int) == more_statements_at(
                views(tokens),
                at as int,
                stmt_views(stmts@),
            ),
        decreases tokens@.len() - at,
    {
        match peek(tokens, at) {
            Some(Token::RParen) => {
                return Ok((stmts, at + 1));
            },
            Some(Token::Semicolon) => {
                at = at + 1;
            },
            None => {
                return Err(end_report(tokens, complaint("unclosed block: expected ')'")));
            },
            Some(_) => {
                let (stmt, end) = match parse_stmt(tokens, at) {
                    Ok(x) => x,
                    Err(e) => {
                        return Err(e);
                    },
                };
                match peek(tokens, end) {
                    Some(Token::Semicolon) | Some(Token::RParen) => {
                        proof {
                            lemma_stmts_push(stmts@, stmt);
                        }
                        stmts.push(stmt);
                        at = end;
                    },
                    Some(_) => {
                        return Err(
                            report_at(tokens, end, complaint("expected ';' or ')' in block")),
                        );
                    },
                    None => {
                        return Err(end_report(tokens, complaint("unclosed block: expected ')'")));
                    },
                }
            },
        }
    }
}

#[verifier::rlimit(40)]
fn parse_stmt(tokens: &[Spanned<Token>], pos: usize) -> (r: Result<(Stmt, usize), ScriptError>)
    requires
        pos < tokens@.len(),
    ensures
        stmt_shown(r, statement_at(views(tokens), pos as int)),
        r matches Ok((_, end)) ==> pos < end <= tokens@.len(),
    decreases tokens@.len() - pos, 12int,
{
    if let Some(Token::Ident(name)) = peek(tokens, pos) {
        if let Some(op) = assign_op(peek(tokens, pos + 1)) {
            return match parse_expr(tokens, pos + 2) {
                Ok((value, end)) => Ok((Stmt::Assign { name: name.clone(), op, value }, end)),
                Err(e) => Err(e),
            };
        }
    }
    match parse_expr(tokens, pos) {
        Ok((e, end)) => Ok((Stmt::Expr(e), end)),
        Err(e) => Err(e),
    }
}

/// Parses a token list into a script.
#[verifier::rlimit(40)]
pub fn parse(tokens: &[Spanned<Token>]) -> (r: Result<Ast, ScriptError>)
    ensures
        match r {
            Ok(ast) => program_of(crate::script::lexer::token_views(tokens@)) == Ok::<
                _,
                ScriptErrorView,
            >(ast@),
            Err(e) => program_of(crate::script::lexer::token_views(tokens@)) == Err::<AstView, _>(
                e@,
            ),
        },
{
    let mut ast = Ast { init: Vec::new(), sample: Vec::new() };
    let mut section = Section::Sample;
    let mut pos: usize = 0;
    loop
        invariant
            pos <= tokens@.len(),
            program_of(views(tokens)) == program_from(views(tokens), pos as int, section, ast@),
        decreases tokens@.len() - pos,
    {
        match peek(tokens, pos) {
            None => {
                return Ok(ast);
            },
            Some(Token::SectionInit) => {
                pos += 1;
                section = Section::Init;
            },
            Some(Token::SectionSample) => {
                pos += 1;
                section = Section::Sample;
            },
            Some(Token::SectionBlock) => {
                pos += 1;
                section = Section::Block;
            },
            Some(Token::Semicolon) => {
                pos += 1;
            },
            Some(_) => {
                let (stmt, end) = match parse_stmt(tokens, pos) {
                    Ok(x) => x,
                    Err(e) => {
                        return Err(e);
                    },
                };
                let ghost before = ast;
                match section {
                    Section::Init => {
                        proof {
                            lemma_stmts_push(ast.init@, stmt);
                        }
                        ast.init.push(stmt);
                    },
                    Section::Sample => {
                        proof {
                            lemma_stmts_push(ast.sample@, stmt);
                        }
                        ast.sample.push(stmt);
                    },
                    Section::Block => {},
                }
                assert(ast@ == filed(before@, section, stmt@));
                pos = end;
                if let Some(Token::Semicolon) = peek(tokens, end) {
                    pos = end + 1;
                }
            },
        }
    }
}

} // verus!
