//! A small expression language for user-written audio effects: source text is cut into tokens,
//! parsed into statements for the `@init` and `@sample` sections, and compiled into postfix
//! instructions that a bounded stack machine runs once per frame.

use vstd::prelude::*;
use crate::text::decimal_text;
use compiler::ProgramView;

pub use compiler::{compile_ast, try_compile_ast, Builtin, Op, Program};
pub use lexer::lex;
pub use parser::parse;

pub mod compiler;
pub mod depth;
pub mod grammar;
pub mod joining;
pub mod leading;
pub mod lexer;
pub mod meaning;
pub mod parser;
pub mod registers;
pub mod running;
pub mod stage;
pub mod vm;

verus! {

/// What an error says. Where the report quotes a number of the source, `number` is the numeral as
/// it is written there; whoever shows the report evaluates it and writes its value between the two
/// texts.
#[derive(Debug, Clone)]
pub struct Report {
    pub before: String,
    pub number: Option<String>,
    pub after: String,
}

/// The text content of a [`Report`].
pub struct ReportView {
    pub before: Seq<char>,
    pub number: Option<Seq<char>>,
    pub after: Seq<char>,
}

impl View for Report {
    type V = ReportView;

    open spec fn view(&self) -> ReportView {
        ReportView {
            before: self.before@,
            number: match self.number {
                Some(n) => Some(n@),
                None => None,
            },
            after: self.after@,
        }
    }
}

/// A report that quotes no number.
pub open spec fn plain(text: Seq<char>) -> ReportView {
    ReportView { before: text, number: None, after: Seq::empty() }
}

impl Report {
    /// A report that quotes no number.
    pub fn plain(text: String) -> (r: Report)
        ensures
            r@ == plain(text@),
    {
        Report { before: text, number: None, after: String::new() }
    }

    /// The whole report, with `shown` standing for the value of the quoted number.
    pub fn text(&self, shown: &str) -> (r: String)
        ensures
            r@ == match self@.number {
                Some(_) => self@.before + shown@ + self@.after,
                None => self@.before + self@.after,
            },
    {
        let mut out = self.before.clone();
        if self.number.is_some() {
            out.append(shown);
        }
        out.append(self.after.as_str());
        out
    }
}

/// An error of any stage, with the place in the source it is about.
#[derive(Debug, Clone)]
pub struct ScriptError {
    pub line: u32,
    pub col: u32,
    pub message: Report,
}

/// The content of a [`ScriptError`].
pub struct ScriptErrorView {
    pub line: int,
    pub col: int,
    pub message: ReportView,
}

impl View for ScriptError {
    type V = ScriptErrorView;

    open spec fn view(&self) -> ScriptErrorView {
        ScriptErrorView { line: self.line as int, col: self.col as int, message: self.message@ }
    }
}

impl ScriptError {
    /// The error in one line, with its place in front and `shown` standing for the value of a
    /// quoted number.
    pub fn describe(&self, shown: &str) -> (r: String)
        ensures
            r@ == "["@ + crate::text::decimal(self.line as nat) + ":"@ + crate::text::decimal(
                self.col as nat,
            ) + "] "@ + (match self@.message.number {
                Some(_) => self@.message.before + shown@ + self@.message.after,
                None => self@.message.before + self@.message.after,
            }),
    {
        let mut out = "[".to_owned();
        out.append(decimal_text(self.line as u64).as_str());
        out.append(":");
        out.append(decimal_text(self.col as u64).as_str());
        out.append("] ");
        out.append(self.message.text(shown).as_str());
        out
    }
}

/// The program that a source text compiles to, or the first error in it.
pub open spec fn program_of_source(src: Seq<char>) -> Result<ProgramView, ScriptErrorView> {
    match lexer::tokens_of(src) {
        Err(e) => Err(e),
        Ok(tokens) => match parser::program_of(tokens) {
            Err(e) => Err(e),
            Ok(ast) => compiler::script_code(ast),
        },
    }
}

/// Whether the program of a source text, as far as it gets, stays within 16 bit registers and 32
/// bit places.
pub open spec fn source_fits(src: Seq<char>) -> bool {
    match lexer::tokens_of(src) {
        Err(_) => true,
        Ok(tokens) => match parser::program_of(tokens) {
            Err(_) => true,
            Ok(ast) => compiler::script_fits(ast),
        },
    }
}

/// Compiles a source text, or says `None` where the text is too long to count its lines in 32
/// bits or its program does not stay within 16 bit registers and 32 bit places.
pub fn try_compile(src: &str) -> (r: Option<Result<Program, ScriptError>>)
    ensures
        match r {
            None => src@.len() >= u32::MAX || !source_fits(src@),
            Some(Ok(p)) => p.reserved() && program_of_source(src@) == Ok::<_, ScriptErrorView>(p@),
            Some(Err(e)) => program_of_source(src@) == Err::<ProgramView, _>(e@),
        },
        r is None <==> (src@.len() >= u32::MAX || !source_fits(src@)),
{
    if src.unicode_len() >= u32::MAX as usize {
        return None;
    }
    let tokens = match lex(src) {
        Ok(tokens) => tokens,
        Err(e) => {
            return Some(Err(e));
        },
    };
    match parse(tokens.as_slice()) {
        Ok(ast) => try_compile_ast(&ast),
        Err(e) => Some(Err(e)),
    }
}

/// Compiles a source text.
pub fn compile(src: &str) -> (r: Result<Program, ScriptError>)
    requires
        src@.len() < u32::MAX,
        source_fits(src@),
    ensures
        match r {
            Ok(p) => p.reserved() && program_of_source(src@) == Ok::<_, ScriptErrorView>(p@),
            Err(e) => program_of_source(src@) == Err::<ProgramView, _>(e@),
        },
{
    try_compile(src).unwrap()
}

/// In the program of any source text every register is below the number of registers the program
/// asks for, every jump leads to an instruction of its own section, and nothing writes `srate`.
pub proof fn law_compiled_script_is_sound(src: Seq<char>)
    ensures
        program_of_source(src) matches Ok(p) ==> compiler::sound(
            p.init,
            p.num_regs,
            0,
            p.init.len() - 1,
        ) && compiler::sound(p.sample, p.num_regs, 0, p.sample.len() - 1),
{
    if let Ok(tokens) = lexer::tokens_of(src) {
        if let Ok(ast) = parser::program_of(tokens) {
            compiler::law_compiled_code_is_sound(ast);
        }
    }
}

} // verus!
