//! A section marker in front of a script.

use vstd::prelude::*;
use crate::script::lexer::{Spanned, TokenView};
use crate::script::parser::{AstView, ExprView, Parsed, Section, StmtView, Tokens};

verus! {

/// Tokens with another one in front of them.
pub open spec fn led_by(first: Spanned<TokenView>, toks: Tokens) -> Tokens {
    seq![first] + toks
}

/// The same outcome, one place further on.
spec fn later<T>(p: Parsed<T>) -> Parsed<T> {
    match p {
        Ok((value, end)) => Ok((value, end + 1)),
        Err(e) => Err(e),
    }
}

/// Every token stands one place further on, and what is said of it stays the same.
proof fn lemma_places(m: Spanned<TokenView>, toks: Tokens, pos: int)
    requires
        0 <= pos,
        toks.len() > 0,
    ensures
        crate::script::parser::token_at(led_by(m, toks), pos + 1)
            == crate::script::parser::token_at(toks, pos),
        forall|message: crate::script::ReportView| #[trigger]
            crate::script::parser::error_at(led_by(m, toks), pos + 1, message)
                == crate::script::parser::error_at(toks, pos, message),
        forall|message: crate::script::ReportView| #[trigger]
            crate::script::parser::end_error(led_by(m, toks), message)
                == crate::script::parser::end_error(toks, message),
        forall|open: bool| #[trigger]
            crate::script::parser::bracket(led_by(m, toks), pos + 1, open) == (
            match crate::script::parser::bracket(toks, pos, open) {
                Ok(end) => Ok(end + 1),
                Err(e) => Err(e),
            }),
{
    let all = led_by(m, toks);
    assert(all.last() == toks.last());
    if pos < toks.len() {
        assert(all[pos + 1] == toks[pos]);
    }
}

proof fn lemma_parse(m: Spanned<TokenView>, toks: Tokens, pos: int)
    requires
        0 <= pos <= toks.len(),
        toks.len() > 0,
    ensures
        crate::script::parser::expr_at(led_by(m, toks), pos + 1) == later(
            crate::script::parser::expr_at(toks, pos),
        ),
        crate::script::parser::statement_at(led_by(m, toks), pos + 1) == later(
            crate::script::parser::statement_at(toks, pos),
        ),
        crate::script::parser::arguments_at(led_by(m, toks), pos + 1) == later(
            crate::script::parser::arguments_at(toks, pos),
        ),
        crate::script::parser::block_at(led_by(m, toks), pos + 1) == later(
            crate::script::parser::block_at(toks, pos),
        ),
        crate::script::parser::bracketed_at(led_by(m, toks), pos + 1) == later(
            crate::script::parser::bracketed_at(toks, pos),
        ),
    decreases toks.len() - pos, 3int, 0int,
{
    let all = led_by(m, toks);
    lemma_places(m, toks, pos);
    lemma_places(m, toks, pos + 1);
    lemma_level(m, toks, pos, 0);
    assert(crate::script::parser::expr_at(all, pos + 1) == later(
        crate::script::parser::expr_at(toks, pos),
    ));
    if pos < toks.len() {
        lemma_parse(m, toks, pos + 1);
        if pos + 2 <= toks.len() {
            lemma_parse(m, toks, pos + 2);
        }
        assert(pos + 1 + 1 == pos + 2);
        if crate::script::parser::token_at(toks, pos) == Some(TokenView::LParen) {
            lemma_lists(m, toks, pos + 1, Seq::empty(), Seq::empty());
            if let Ok((_, end)) = crate::script::parser::expr_at(toks, pos + 1) {
                crate::script::parser::lemma_parse_advances(toks, pos + 1);
                lemma_places(m, toks, end);
            }
        }
    }
}

proof fn lemma_lists(
    m: Spanned<TokenView>,
    toks: Tokens,
    pos: int,
    args: Seq<ExprView>,
    stmts: Seq<StmtView>,
)
    requires
        0 <= pos <= toks.len(),
        toks.len() > 0,
    ensures
        crate::script::parser::more_arguments_at(led_by(m, toks), pos + 1, args) == later(
            crate::script::parser::more_arguments_at(toks, pos, args),
        ),
        crate::script::parser::more_statements_at(led_by(m, toks), pos + 1, stmts) == later(
            crate::script::parser::more_statements_at(toks, pos, stmts),
        ),
    decreases toks.len() - pos, 4int, 0int,
{
    lemma_places(m, toks, pos);
    lemma_parse(m, toks, pos);
    crate::script::parser::lemma_parse_advances(toks, pos);
    if let Ok((arg, end)) = crate::script::parser::expr_at(toks, pos) {
        lemma_places(m, toks, end);
        if crate::script::parser::token_at(toks, end) == Some(TokenView::Comma) {
            lemma_lists(m, toks, end + 1, args.push(arg), stmts);
        }
    }
    if crate::script::parser::token_at(toks, pos) == Some(TokenView::Semicolon) {
        lemma_lists(m, toks, pos + 1, args, stmts);
    }
    if let Ok((stmt, end)) = crate::script::parser::statement_at(toks, pos) {
        lemma_places(m, toks, end);
        lemma_lists(m, toks, end, args, stmts.push(stmt));
    }
}

proof fn lemma_level(m: Spanned<TokenView>, toks: Tokens, pos: int, level: int)
    requires
        0 <= pos <= toks.len(),
        0 <= level <= 5,
        toks.len() > 0,
    ensures
        crate::script::parser::level_at(led_by(m, toks), pos + 1, level) == later(
            crate::script::parser::level_at(toks, pos, level),
        ),
    decreases toks.len() - pos, 2int, 5 - level,
{
    if level < 5 {
        lemma_level(m, toks, pos, level + 1);
        crate::script::parser::lemma_level_advances(toks, pos, level + 1);
        if let Ok((left, end)) = crate::script::parser::level_at(toks, pos, level + 1) {
            lemma_chain(m, toks, end, level, left);
        }
    } else {
        lemma_unary(m, toks, pos);
    }
}

proof fn lemma_chain(m: Spanned<TokenView>, toks: Tokens, pos: int, level: int, left: ExprView)
    requires
        0 <= pos <= toks.len(),
        0 <= level < 5,
        toks.len() > 0,
    ensures
        crate::script::parser::chain_at(led_by(m, toks), pos + 1, level, left) == later(
            crate::script::parser::chain_at(toks, pos, level, left),
        ),
    decreases toks.len() - pos, 2int, 6int,
{
    lemma_places(m, toks, pos);
    if let Some(op) = crate::script::parser::level_op(
        level,
        crate::script::parser::token_at(toks, pos),
    ) {
        lemma_level(m, toks, pos + 1, level + 1);
        crate::script::parser::lemma_level_advances(toks, pos + 1, level + 1);
        if let Ok((right, end)) = crate::script::parser::level_at(toks, pos + 1, level + 1) {
            lemma_chain(
                m,
                toks,
                end,
                level,
                ExprView::Binary(op, Box::new(left), Box::new(right)),
            );
        }
    }
}

proof fn lemma_unary(m: Spanned<TokenView>, toks: Tokens, pos: int)
    requires
        0 <= pos <= toks.len(),
        toks.len() > 0,
    ensures
        crate::script::parser::unary_at(led_by(m, toks), pos + 1) == later(
            crate::script::parser::unary_at(toks, pos),
        ),
    decreases toks.len() - pos, 1int, 0int,
{
    let all = led_by(m, toks);
    lemma_places(m, toks, pos);
    if pos < toks.len() {
        lemma_unary(m, toks, pos + 1);
    }
    lemma_primary(m, toks, pos);
    crate::script::parser::lemma_primary_advances(toks, pos);
    if let Ok((_, end)) = crate::script::parser::primary_at(toks, pos) {
        lemma_places(m, toks, end);
        if end < toks.len() {
            lemma_unary(m, toks, end + 1);
        }
    }
    assert(crate::script::parser::power_at(all, pos + 1) == later(
        crate::script::parser::power_at(toks, pos),
    ));
}

proof fn lemma_form(m: Spanned<TokenView>, toks: Tokens, pos: int, name: Seq<char>)
    requires
        0 <= pos <= toks.len(),
        toks.len() > 0,
    ensures
        crate::script::parser::form_at(led_by(m, toks), pos + 1, name) == later(
            crate::script::parser::form_at(toks, pos, name),
        ),
    decreases toks.len() - pos, 4int, 0int,
{
    lemma_parse(m, toks, pos);
    crate::script::parser::lemma_parse_advances(toks, pos);
    if let Ok((_, end)) = crate::script::parser::bracketed_at(toks, pos) {
        lemma_parse(m, toks, end);
    }
    if let Ok((_, end)) = crate::script::parser::arguments_at(toks, pos) {
        lemma_places(m, toks, end);
        lemma_parse(m, toks, end);
    }
}

proof fn lemma_primary(m: Spanned<TokenView>, toks: Tokens, pos: int)
    requires
        0 <= pos <= toks.len(),
        toks.len() > 0,
    ensures
        crate::script::parser::primary_at(led_by(m, toks), pos + 1) == later(
            crate::script::parser::primary_at(toks, pos),
        ),
    decreases toks.len() - pos, 0int, 0int,
{
    lemma_places(m, toks, pos);
    lemma_places(m, toks, pos + 1);
    if pos < toks.len() {
        lemma_parse(m, toks, pos + 1);
        crate::script::parser::lemma_parse_advances(toks, pos + 1);
        if let Ok((_, end)) = crate::script::parser::expr_at(toks, pos + 1) {
            lemma_places(m, toks, end);
        }
        if let Some(TokenView::Ident(name)) = crate::script::parser::token_at(toks, pos) {
            lemma_form(m, toks, pos + 1, name);
            assert(pos + 1 + 1 == pos + 2);
        }
    }
}

proof fn lemma_program(
    m: Spanned<TokenView>,
    toks: Tokens,
    pos: int,
    section: Section,
    ast: AstView,
)
    requires
        0 <= pos <= toks.len(),
        toks.len() > 0,
    ensures
        crate::script::parser::program_from(led_by(m, toks), pos + 1, section, ast)
            == crate::script::parser::program_from(toks, pos, section, ast),
    decreases toks.len() - pos,
{
    lemma_places(m, toks, pos);
    if pos < toks.len() {
        lemma_program(m, toks, pos + 1, Section::Init, ast);
        lemma_program(m, toks, pos + 1, Section::Sample, ast);
        lemma_program(m, toks, pos + 1, Section::Block, ast);
        lemma_program(m, toks, pos + 1, section, ast);
        lemma_parse(m, toks, pos);
        crate::script::parser::lemma_parse_advances(toks, pos);
        if let Ok((stmt, end)) = crate::script::parser::statement_at(toks, pos) {
            lemma_places(m, toks, end);
            let next = crate::script::parser::past_semicolon(toks, end);
            lemma_program(m, toks, next, section, crate::script::parser::filed(ast, section, stmt));
        }
    }
}

/// A script that starts without a section marker is a script that starts with `@sample`: the
/// marker in front changes neither what is parsed nor which error comes.
pub proof fn law_sample_is_where_a_script_starts(marker: Spanned<TokenView>, toks: Tokens)
    requires
        marker.node == TokenView::SectionSample,
    ensures
        crate::script::parser::program_of(led_by(marker, toks))
            == crate::script::parser::program_of(toks),
{
    let all = led_by(marker, toks);
    let none = AstView { init: Seq::empty(), sample: Seq::empty() };
    assert(crate::script::parser::token_at(all, 0) == Some(marker.node));
    if toks.len() > 0 {
        lemma_program(marker, toks, 0, Section::Sample, none);
    } else {
        assert(crate::script::parser::program_from(all, 1, Section::Sample, none) == Ok::<
            AstView,
            crate::script::ScriptErrorView,
        >(none));
    }
}

} // verus!
