//! Compiles a parsed script into postfix instructions.
//!
//! Registers 0, 1 and 2 hold `spl0`, `spl1` and `srate`; every other variable gets the next free
//! register where it is first met, and every `loop` one more for its counter. Jump targets are
//! absolute places in the instructions of their section.

use vstd::prelude::*;
use crate::script::parser::{AssignOp, Ast, AstView, BinOp, Const, Expr, ExprView, Stmt, StmtView, UnOp};
use crate::script::{Report, ScriptError, ScriptErrorView};
use crate::text::{decimal_text, join3, same_text};

verus! {

/// A number in the instructions: a numeral of the source, or the bits of a single precision value.
#[derive(Debug, Clone, PartialEq, Eq)]
pub enum Num {
    Text(String),
    Bits(u32),
}

/// The content of a [`Num`].
pub enum NumView {
    Text(Seq<char>),
    Bits(u32),
}

/// The single precision bits of pi.
pub const PI_BITS: u32 = 0x4049_0fdb;

/// The single precision bits of e.
pub const E_BITS: u32 = 0x402d_f854;

/// The single precision bits of one.
pub const ONE_BITS: u32 = 0x3f80_0000;

/// One instruction of the stack machine.
#[derive(Debug, Clone, PartialEq, Eq)]
pub enum Op {
    PushConst(Num),
    LoadReg(u16),
    StoreReg(u16),
    Add,
    Sub,
    Mul,
    Div,
    Mod,
    Pow,
    Neg,
    Eq,
    Ne,
    Lt,
    Le,
    Gt,
    Ge,
    And,
    Or,
    Not,
    /// Pops as many arguments as the function takes, the last on top, and pushes its value.
    Call(Builtin),
    JumpIfFalse(u32),
    Jump(u32),
    Pop,
}

/// The content of an [`Op`], with unbounded registers and places.
pub enum OpView {
    PushConst(NumView),
    LoadReg(int),
    StoreReg(int),
    Add,
    Sub,
    Mul,
    Div,
    Mod,
    Pow,
    Neg,
    Eq,
    Ne,
    Lt,
    Le,
    Gt,
    Ge,
    And,
    Or,
    Not,
    Call(Builtin),
    JumpIfFalse(int),
    Jump(int),
    Pop,
}

impl View for Num {
    type V = NumView;

    open spec fn view(&self) -> NumView {
        match self {
            Num::Text(s) => NumView::Text(s@),
            Num::Bits(b) => NumView::Bits(*b),
        }
    }
}

impl View for Op {
    type V = OpView;

    open spec fn view(&self) -> OpView {
        match self {
            Op::PushConst(n) => OpView::PushConst(n@),
            Op::LoadReg(r) => OpView::LoadReg(*r as int),
            Op::StoreReg(r) => OpView::StoreReg(*r as int),
            Op::Add => OpView::Add,
            Op::Sub => OpView::Sub,
            Op::Mul => OpView::Mul,
            Op::Div => OpView::Div,
            Op::Mod => OpView::Mod,
            Op::Pow => OpView::Pow,
            Op::Neg => OpView::Neg,
            Op::Eq => OpView::Eq,
            Op::Ne => OpView::Ne,
            Op::Lt => OpView::Lt,
            Op::Le => OpView::Le,
            Op::Gt => OpView::Gt,
            Op::Ge => OpView::Ge,
            Op::And => OpView::And,
            Op::Or => OpView::Or,
            Op::Not => OpView::Not,
            Op::Call(b) => OpView::Call(*b),
            Op::JumpIfFalse(t) => OpView::JumpIfFalse(*t as int),
            Op::Jump(t) => OpView::Jump(*t as int),
            Op::Pop => OpView::Pop,
        }
    }
}

/// The contents of instructions.
pub open spec fn op_views(ops: Seq<Op>) -> Seq<OpView> {
    ops.map_values(|o: Op| o@)
}

/// The functions a script can call.
#[derive(Debug, Clone, Copy, PartialEq, Eq, Structural)]
pub enum Builtin {
    Sin,
    Cos,
    Tan,
    Asin,
    Acos,
    Atan,
    Sqrt,
    Exp,
    Log,
    Log10,
    Abs,
    Floor,
    Ceil,
    Round,
    Sign,
    Tanh,
    Atan2,
    Pow,
    Min,
    Max,
    Fmod,
}

/// The function that a name stands for.
pub open spec fn builtin_named(name: Seq<char>) -> Option<Builtin> {
    if name == "sin"@ {
        Some(Builtin::Sin)
    } else if name == "cos"@ {
        Some(Builtin::Cos)
    } else if name == "tan"@ {
        Some(Builtin::Tan)
    } else if name == "asin"@ {
        Some(Builtin::Asin)
    } else if name == "acos"@ {
        Some(Builtin::Acos)
    } else if name == "atan"@ {
        Some(Builtin::Atan)
    } else if name == "sqrt"@ {
        Some(Builtin::Sqrt)
    } else if name == "exp"@ {
        Some(Builtin::Exp)
    } else if name == "log"@ {
        Some(Builtin::Log)
    } else if name == "log10"@ {
        Some(Builtin::Log10)
    } else if name == "abs"@ {
        Some(Builtin::Abs)
    } else if name == "floor"@ {
        Some(Builtin::Floor)
    } else if name == "ceil"@ {
        Some(Builtin::Ceil)
    } else if name == "round"@ {
        Some(Builtin::Round)
    } else if name == "sign"@ {
        Some(Builtin::Sign)
    } else if name == "tanh"@ {
        Some(Builtin::Tanh)
    } else if name == "atan2"@ {
        Some(Builtin::Atan2)
    } else if name == "pow"@ {
        Some(Builtin::Pow)
    } else if name == "min"@ {
        Some(Builtin::Min)
    } else if name == "max"@ {
        Some(Builtin::Max)
    } else if name == "fmod"@ {
        Some(Builtin::Fmod)
    } else {
        None
    }
}

/// How many arguments a function takes.
pub open spec fn arity(b: Builtin) -> nat {
    match b {
        Builtin::Atan2 | Builtin::Pow | Builtin::Min | Builtin::Max | Builtin::Fmod => 2,
        _ => 1,
    }
}

impl Builtin {
    /// The function that a name stands for, and how many arguments it takes.
    pub fn from_name(name: &str) -> (r: Option<(Builtin, usize)>)
        ensures
            match r {
                Some((b, n)) => builtin_named(name@) == Some(b) && n == arity(b),
                None => builtin_named(name@) is None,
            },
    {
        if same_text(name, "sin") {
            Some((Builtin::Sin, 1))
        } else if same_text(name, "cos") {
            Some((Builtin::Cos, 1))
        } else if same_text(name, "tan") {
            Some((Builtin::Tan, 1))
        } else if same_text(name, "asin") {
            Some((Builtin::Asin, 1))
        } else if same_text(name, "acos") {
            Some((Builtin::Acos, 1))
        } else if same_text(name, "atan") {
            Some((Builtin::Atan, 1))
        } else if same_text(name, "sqrt") {
            Some((Builtin::Sqrt, 1))
        } else if same_text(name, "exp") {
            Some((Builtin::Exp, 1))
        } else if same_text(name, "log") {
            Some((Builtin::Log, 1))
        } else if same_text(name, "log10") {
            Some((Builtin::Log10, 1))
        } else if same_text(name, "abs") {
            Some((Builtin::Abs, 1))
        } else if same_text(name, "floor") {
            Some((Builtin::Floor, 1))
        } else if same_text(name, "ceil") {
            Some((Builtin::Ceil, 1))
        } else if same_text(name, "round") {
            Some((Builtin::Round, 1))
        } else if same_text(name, "sign") {
            Some((Builtin::Sign, 1))
        } else if same_text(name, "tanh") {
            Some((Builtin::Tanh, 1))
        } else if same_text(name, "atan2") {
            Some((Builtin::Atan2, 2))
        } else if same_text(name, "pow") {
            Some((Builtin::Pow, 2))
        } else if same_text(name, "min") {
            Some((Builtin::Min, 2))
        } else if same_text(name, "max") {
            Some((Builtin::Max, 2))
        } else if same_text(name, "fmod") {
            Some((Builtin::Fmod, 2))
        } else {
            None
        }
    }
}

/// A compiled script.
#[derive(Debug, Clone)]
pub struct Program {
    /// Run once, when the script is loaded.
    pub init: Vec<Op>,
    /// Run for every audio frame.
    pub sample: Vec<Op>,
    /// How many registers the two sections use.
    pub num_regs: usize,
    pub spl0_reg: u16,
    pub spl1_reg: u16,
    pub srate_reg: u16,
}

/// The names that have a register, and the next free register.
pub struct Scope {
    pub bound: Seq<(Seq<char>, int)>,
    pub next: int,
}

/// The scope a script starts in.
pub open spec fn first_scope() -> Scope {
    Scope { bound: seq![("spl0"@, 0int), ("spl1"@, 1int), ("srate"@, 2int)], next: 3 }
}

/// The register of a name.
pub open spec fn lookup(bound: Seq<(Seq<char>, int)>, name: Seq<char>) -> Option<int>
    decreases bound.len(),
{
    if bound.len() == 0 {
        None
    } else if bound.last().0 == name {
        Some(bound.last().1)
    } else {
        lookup(bound.drop_last(), name)
    }
}

/// The register of a name, which is a new one where the name has none yet.
pub open spec fn register(scope: Scope, name: Seq<char>) -> int {
    match lookup(scope.bound, name) {
        Some(r) => r,
        None => scope.next,
    }
}

/// The scope in which a name has its register.
pub open spec fn with_name(scope: Scope, name: Seq<char>) -> Scope {
    match lookup(scope.bound, name) {
        Some(_) => scope,
        None => Scope { bound: scope.bound.push((name, scope.next)), next: scope.next + 1 },
    }
}

/// The scope in which the next register is taken by a counter.
pub open spec fn with_counter(scope: Scope) -> Scope {
    Scope { bound: scope.bound, next: scope.next + 1 }
}

/// Instructions for a piece of a script: the scope behind it and the first error in it.
/// Where there is an error, the instructions are those in front of it.
pub struct Code {
    pub scope: Scope,
    pub ops: Seq<OpView>,
    pub error: Option<ScriptErrorView>,
}

/// An error of compilation; it has no place in the source.
pub open spec fn code_error(text: Seq<char>) -> ScriptErrorView {
    ScriptErrorView { line: 0, col: 0, message: crate::script::plain(text) }
}

/// `code` behind the instructions `before`.
pub open spec fn behind(before: Seq<OpView>, code: Code) -> Code {
    Code { ops: before + code.ops, ..code }
}

/// `code` with `last` behind it, where it has no error.
pub open spec fn closed_by(code: Code, last: Seq<OpView>) -> Code {
    if code.error is Some {
        code
    } else {
        Code { ops: code.ops + last, ..code }
    }
}

/// The instruction of a binary operator.
pub open spec fn binary_code(op: BinOp) -> OpView {
    match op {
        BinOp::Add => OpView::Add,
        BinOp::Sub => OpView::Sub,
        BinOp::Mul => OpView::Mul,
        BinOp::Div => OpView::Div,
        BinOp::Mod => OpView::Mod,
        BinOp::Pow => OpView::Pow,
        BinOp::Eq => OpView::Eq,
        BinOp::Ne => OpView::Ne,
        BinOp::Lt => OpView::Lt,
        BinOp::Le => OpView::Le,
        BinOp::Gt => OpView::Gt,
        BinOp::Ge => OpView::Ge,
        BinOp::And => OpView::And,
        BinOp::Or => OpView::Or,
    }
}

/// The complaint about a call with a wrong number of arguments.
pub open spec fn arity_text(name: Seq<char>, b: Builtin, got: nat) -> Seq<char> {
    "function "@ + name + " expects "@ + crate::text::decimal(arity(b)) + (if arity(b) == 1 {
        " arg, got "@
    } else {
        " args, got "@
    }) + crate::text::decimal(got)
}

/// Two operands and the operator behind them.
#[verifier::opaque]
pub open spec fn binary_joined(a: Code, b: Code, op: BinOp) -> Code {
    if a.error is Some {
        a
    } else {
        closed_by(behind(a.ops, b), seq![binary_code(op)])
    }
}

/// A call, whose arguments are `args` in number and compile to `a`.
#[verifier::opaque]
pub open spec fn call_joined(name: Seq<char>, args: nat, scope: Scope, a: Code) -> Code {
    match builtin_named(name) {
        None => Code {
            scope,
            ops: Seq::empty(),
            error: Some(code_error("unknown function: "@ + name + ""@)),
        },
        Some(b) => if args != arity(b) {
            Code {
                scope,
                ops: Seq::empty(),
                error: Some(code_error(arity_text(name, b, args))),
            }
        } else {
            closed_by(a, seq![OpView::Call(b)])
        },
    }
}

/// A condition at place `at` and the code of the two branches: the second is jumped to where the
/// condition is false, and jumped over behind the first.
#[verifier::opaque]
pub open spec fn if_joined(at: int, c: Code, t: Code, o: Code) -> Code {
    let e_at = at + c.ops.len() + 1 + t.ops.len() + 1;
    let head = c.ops.push(OpView::JumpIfFalse(e_at));
    if c.error is Some {
        c
    } else if t.error is Some {
        behind(head, t)
    } else {
        behind((head + t.ops).push(OpView::Jump(e_at + o.ops.len())), o)
    }
}

/// A condition at place `at` and the body that is repeated while it holds.
#[verifier::opaque]
pub open spec fn while_joined(at: int, c: Code, b: Code) -> Code {
    if c.error is Some {
        c
    } else {
        closed_by(
            behind(c.ops.push(OpView::JumpIfFalse(at + c.ops.len() + 1 + b.ops.len() + 1)), b),
            seq![OpView::Jump(at)],
        )
    }
}

/// A count at place `at`, kept in the register `counter`, and the body that is repeated while the
/// counter, which falls by one each time, is positive.
#[verifier::opaque]
pub open spec fn loop_joined(at: int, counter: int, n: Code, b: Code) -> Code {
    let top = at + n.ops.len() + 1;
    let end = top + 4 + b.ops.len() + 5;
    if n.error is Some {
        n
    } else {
        closed_by(
            behind(
                n.ops + seq![
                    OpView::StoreReg(counter),
                    OpView::LoadReg(counter),
                    OpView::PushConst(NumView::Bits(0)),
                    OpView::Gt,
                    OpView::JumpIfFalse(end),
                ],
                b,
            ),
            seq![
                OpView::LoadReg(counter),
                OpView::PushConst(NumView::Bits(ONE_BITS)),
                OpView::Sub,
                OpView::StoreReg(counter),
                OpView::Jump(top),
            ],
        )
    }
}

/// Instructions, from place `at` on, that leave the value of an expression on the stack.
pub open spec fn expr_code(e: ExprView, scope: Scope, at: int) -> Code
    decreases e,
{
    match e {
        ExprView::Num(n) => Code {
            scope,
            ops: seq![OpView::PushConst(NumView::Text(n))],
            error: None,
        },
        ExprView::Const(c) => Code {
            scope,
            ops: seq![
                OpView::PushConst(
                    NumView::Bits(
                        match c {
                            Const::Pi => PI_BITS,
                            Const::E => E_BITS,
                        },
                    ),
                ),
            ],
            error: None,
        },
        ExprView::Var(name) => Code {
            scope: with_name(scope, name),
            ops: seq![OpView::LoadReg(register(scope, name))],
            error: None,
        },
        ExprView::Unary(op, operand) => closed_by(
            expr_code(*operand, scope, at),
            seq![
                match op {
                    UnOp::Neg => OpView::Neg,
                    UnOp::Not => OpView::Not,
                },
            ],
        ),
        ExprView::Binary(op, left, right) => {
            let a = expr_code(*left, scope, at);
            let b = expr_code(*right, a.scope, at + a.ops.len());
            binary_joined(a, b, op)
        },
        ExprView::Call(name, args) => call_joined(
            name,
            args.len(),
            scope,
            exprs_code(args, scope, at),
        ),
        ExprView::If(cond, then, other) => {
            let c = expr_code(*cond, scope, at);
            let t = expr_code(*then, c.scope, at + c.ops.len() + 1);
            let o = expr_code(*other, t.scope, at + c.ops.len() + 1 + t.ops.len() + 1);
            if_joined(at, c, t, o)
        },
        ExprView::While(cond, body) => {
            let c = expr_code(*cond, scope, at);
            let b = stmts_code(body, c.scope, at + c.ops.len() + 1);
            while_joined(at, c, b)
        },
        ExprView::Loop(count, body) => {
            let n = expr_code(*count, with_counter(scope), at);
            let b = stmts_code(body, n.scope, at + n.ops.len() + 1 + 4);
            loop_joined(at, scope.next, n, b)
        },
    }
}

/// Instructions for expressions one after another.
pub open spec fn exprs_code(es: Seq<ExprView>, scope: Scope, at: int) -> Code
    decreases es,
{
    if es.len() == 0 {
        Code { scope, ops: Seq::empty(), error: None }
    } else {
        let a = exprs_code(es.drop_last(), scope, at);
        if a.error is Some {
            a
        } else {
            behind(a.ops, expr_code(es.last(), a.scope, at + a.ops.len()))
        }
    }
}

/// The instruction that a compound assignment applies.
pub open spec fn compound_code(op: AssignOp) -> Option<OpView> {
    match op {
        AssignOp::Eq => None,
        AssignOp::PlusEq => Some(OpView::Add),
        AssignOp::MinusEq => Some(OpView::Sub),
        AssignOp::StarEq => Some(OpView::Mul),
        AssignOp::SlashEq => Some(OpView::Div),
    }
}

/// An assignment to register `r` of the value that compiles to `v`; a compound one applies its
/// operator to the register and the value.
#[verifier::opaque]
pub open spec fn assign_joined(r: int, op: AssignOp, v: Code) -> Code {
    match compound_code(op) {
        None => closed_by(v, seq![OpView::StoreReg(r)]),
        Some(f) => closed_by(behind(seq![OpView::LoadReg(r)], v), seq![f, OpView::StoreReg(r)]),
    }
}

/// Instructions for a statement. `srate` cannot be assigned.
pub open spec fn stmt_code(s: StmtView, scope: Scope, at: int) -> Code
    decreases s,
{
    match s {
        StmtView::Assign { name, op, value } => if name == "srate"@ {
            Code {
                scope,
                ops: Seq::empty(),
                error: Some(code_error("srate is read-only"@)),
            }
        } else {
            let v_at = if op == AssignOp::Eq {
                at
            } else {
                at + 1
            };
            assign_joined(
                register(scope, name),
                op,
                expr_code(value, with_name(scope, name), v_at),
            )
        },
        StmtView::Expr(e) => closed_by(expr_code(e, scope, at), seq![OpView::Pop]),
    }
}

/// Instructions for statements one after another.
pub open spec fn stmts_code(ss: Seq<StmtView>, scope: Scope, at: int) -> Code
    decreases ss,
{
    if ss.len() == 0 {
        Code { scope, ops: Seq::empty(), error: None }
    } else {
        let a = stmts_code(ss.drop_last(), scope, at);
        if a.error is Some {
            a
        } else {
            behind(a.ops, stmt_code(ss.last(), a.scope, at + a.ops.len()))
        }
    }
}

/// Whether code that starts at place `at` stays within 16 bit registers and 32 bit places.
pub open spec fn fits(code: Code, at: int) -> bool {
    code.scope.next <= u16::MAX && at + code.ops.len() <= u32::MAX
}

/// The two sections of a script: `@sample` is compiled in the scope that `@init` leaves.
pub struct ProgramView {
    pub init: Seq<OpView>,
    pub sample: Seq<OpView>,
    pub num_regs: int,
}

/// Whether a script stays within 16 bit registers and 32 bit places.
pub open spec fn script_fits(ast: AstView) -> bool {
    let a = stmts_code(ast.init, first_scope(), 0);
    fits(a, 0) && (a.error is None ==> fits(stmts_code(ast.sample, a.scope, 0), 0))
}

/// The compiled form of a script, or the first error in it.
pub open spec fn script_code(ast: AstView) -> Result<ProgramView, ScriptErrorView> {
    let a = stmts_code(ast.init, first_scope(), 0);
    match a.error {
        Some(e) => Err(e),
        None => {
            let b = stmts_code(ast.sample, a.scope, 0);
            match b.error {
                Some(e) => Err(e),
                None => Ok(ProgramView { init: a.ops, sample: b.ops, num_regs: b.scope.next }),
            }
        },
    }
}

impl View for Program {
    type V = ProgramView;

    open spec fn view(&self) -> ProgramView {
        ProgramView {
            init: op_views(self.init@),
            sample: op_views(self.sample@),
            num_regs: self.num_regs as int,
        }
    }
}

impl Program {
    /// The three reserved registers are where they belong.
    pub open spec fn reserved(self) -> bool {
        self.spl0_reg == 0 && self.spl1_reg == 1 && self.srate_reg == 2
    }
}

/// No piece of a script gives back registers.
pub proof fn lemma_registers_grow(e: ExprView, scope: Scope, at: int)
    ensures
        expr_code(e, scope, at).scope.next >= scope.next,
    decreases e,
{
    reveal(binary_joined);
    reveal(call_joined);
    reveal(if_joined);
    reveal(while_joined);
    reveal(loop_joined);
    match e {
        ExprView::Num(_) | ExprView::Const(_) | ExprView::Var(_) => {},
        ExprView::Unary(_, a) => {
            lemma_registers_grow(*a, scope, at);
        },
        ExprView::Binary(_, a, b) => {
            lemma_registers_grow(*a, scope, at);
            let c = expr_code(*a, scope, at);
            lemma_registers_grow(*b, c.scope, at + c.ops.len());
        },
        ExprView::Call(_, args) => {
            lemma_exprs_registers_grow(args, scope, at);
        },
        ExprView::If(a, b, o) => {
            lemma_registers_grow(*a, scope, at);
            let c = expr_code(*a, scope, at);
            lemma_registers_grow(*b, c.scope, at + c.ops.len() + 1);
            let t = expr_code(*b, c.scope, at + c.ops.len() + 1);
            lemma_registers_grow(*o, t.scope, at + c.ops.len() + 1 + t.ops.len() + 1);
        },
        ExprView::While(a, body) => {
            lemma_registers_grow(*a, scope, at);
            let c = expr_code(*a, scope, at);
            lemma_stmts_registers_grow(body, c.scope, at + c.ops.len() + 1);
        },
        ExprView::Loop(n, body) => {
            lemma_registers_grow(*n, with_counter(scope), at);
            let c = expr_code(*n, with_counter(scope), at);
            lemma_stmts_registers_grow(body, c.scope, at + c.ops.len() + 1 + 4);
        },
    }
}

proof fn lemma_exprs_registers_grow(es: Seq<ExprView>, scope: Scope, at: int)
    ensures
        exprs_code(es, scope, at).scope.next >= scope.next,
    decreases es,
{
    if es.len() > 0 {
        lemma_exprs_registers_grow(es.drop_last(), scope, at);
        let a = exprs_code(es.drop_last(), scope, at);
        lemma_registers_grow(es.last(), a.scope, at + a.ops.len());
    }
}

proof fn lemma_stmt_registers_grow(s: StmtView, scope: Scope, at: int)
    ensures
        stmt_code(s, scope, at).scope.next >= scope.next,
    decreases s,
{
    reveal(assign_joined);
    match s {
        StmtView::Assign { name, op, value } => {
            lemma_registers_grow(value, with_name(scope, name), at);
            lemma_registers_grow(value, with_name(scope, name), at + 1);
        },
        StmtView::Expr(e) => {
            lemma_registers_grow(e, scope, at);
        },
    }
}

proof fn lemma_stmts_registers_grow(ss: Seq<StmtView>, scope: Scope, at: int)
    ensures
        stmts_code(ss, scope, at).scope.next >= scope.next,
    decreases ss,
{
    if ss.len() > 0 {
        lemma_stmts_registers_grow(ss.drop_last(), scope, at);
        let a = stmts_code(ss.drop_last(), scope, at);
        lemma_stmt_registers_grow(ss.last(), a.scope, at + a.ops.len());
    }
}

/// The code of a longer list starts with that of a shorter one, and with its error stops there.
proof fn lemma_exprs_prefix(es: Seq<ExprView>, n: int, scope: Scope, at: int)
    requires
        0 <= n <= es.len(),
    ensures
        exprs_code(es, scope, at).scope.next >= exprs_code(es.take(n), scope, at).scope.next,
        exprs_code(es, scope, at).ops.len() >= exprs_code(es.take(n), scope, at).ops.len(),
        exprs_code(es.take(n), scope, at).error is Some ==> exprs_code(es, scope, at) == exprs_code(
            es.take(n),
            scope,
            at,
        ),
    decreases es.len(),
{
    if n == es.len() {
        assert(es.take(n) =~= es);
    } else {
        assert(es.drop_last().take(n) =~= es.take(n));
        lemma_exprs_prefix(es.drop_last(), n, scope, at);
        let a = exprs_code(es.drop_last(), scope, at);
        lemma_registers_grow(es.last(), a.scope, at + a.ops.len());
    }
}

proof fn lemma_stmts_prefix(ss: Seq<StmtView>, n: int, scope: Scope, at: int)
    requires
        0 <= n <= ss.len(),
    ensures
        stmts_code(ss, scope, at).scope.next >= stmts_code(ss.take(n), scope, at).scope.next,
        stmts_code(ss, scope, at).ops.len() >= stmts_code(ss.take(n), scope, at).ops.len(),
        stmts_code(ss.take(n), scope, at).error is Some ==> stmts_code(ss, scope, at) == stmts_code(
            ss.take(n),
            scope,
            at,
        ),
    decreases ss.len(),
{
    if n == ss.len() {
        assert(ss.take(n) =~= ss);
    } else {
        assert(ss.drop_last().take(n) =~= ss.take(n));
        lemma_stmts_prefix(ss.drop_last(), n, scope, at);
        let a = stmts_code(ss.drop_last(), scope, at);
        lemma_stmt_registers_grow(ss.last(), a.scope, at + a.ops.len());
    }
}

/// A name and its register.
struct Symbol {
    name: String,
    reg: u16,
}

/// Why compilation stopped.
enum Stop {
    Fault(ScriptError),
    Full,
}

struct Compiler {
    syms: Vec<Symbol>,
    next_reg: u16,
}

spec fn bound_of(syms: Seq<Symbol>) -> Seq<(Seq<char>, int)> {
    syms.map_values(|s: Symbol| (s.name@, s.reg as int))
}

/// What a compiling function has done to the instructions and the scope.
spec fn compiled(
    r: Result<(), Stop>,
    before: Seq<Op>,
    after: Seq<Op>,
    scope: Scope,
    code: Code,
) -> bool {
    match r {
        Ok(()) => code.error is None && fits(code, before.len() as int) && scope == code.scope
            && op_views(after) == op_views(before) + code.ops && after.len() == before.len()
            + code.ops.len(),
        Err(Stop::Fault(e)) => code.error == Some(e@) && fits(code, before.len() as int),
        Err(Stop::Full) => !fits(code, before.len() as int),
    }
}

/// Adds an instruction, unless all places are taken.
fn emit(out: &mut Vec<Op>, op: Op) -> (done: bool)
    ensures
        done ==> final(out)@ == old(out)@.push(op) && final(out)@.len() <= u32::MAX && op_views(
            final(out)@,
        ) == op_views(old(out)@).push(op@),
        !done ==> old(out)@.len() >= u32::MAX,
{
    if out.len() >= u32::MAX as usize {
        return false;
    }
    out.push(op);
    assert(op_views(out@) =~= op_views(old(out)@).push(op@));
    true
}

/// Replaces the instruction at a place.
fn patch(out: &mut Vec<Op>, place: usize, op: Op)
    requires
        place < old(out)@.len(),
    ensures
        final(out)@.len() == old(out)@.len(),
        op_views(final(out)@) == op_views(old(out)@).update(place as int, op@),
{
    out[place] = op;
    assert(op_views(out@) =~= op_views(old(out)@).update(place as int, op@));
}

fn fault(text: String) -> (r: Stop)
    ensures
        r matches Stop::Fault(e) && e@ == code_error(text@),
{
    Stop::Fault(ScriptError { line: 0, col: 0, message: Report::plain(text) })
}

fn binary_instruction(op: BinOp) -> (r: Op)
    ensures
        r@ == binary_code(op),
{
    match op {
        BinOp::Add => Op::Add,
        BinOp::Sub => Op::Sub,
        BinOp::Mul => Op::Mul,
        BinOp::Div => Op::Div,
        BinOp::Mod => Op::Mod,
        BinOp::Pow => Op::Pow,
        BinOp::Eq => Op::Eq,
        BinOp::Ne => Op::Ne,
        BinOp::Lt => Op::Lt,
        BinOp::Le => Op::Le,
        BinOp::Gt => Op::Gt,
        BinOp::Ge => Op::Ge,
        BinOp::And => Op::And,
        BinOp::Or => Op::Or,
    }
}

impl Compiler {
    spec fn scope(&self) -> Scope {
        Scope { bound: bound_of(self.syms@), next: self.next_reg as int }
    }

    fn new() -> (r: Compiler)
        ensures
            r.scope() == first_scope(),
    {
        let mut syms: Vec<Symbol> = Vec::new();
        syms.push(Symbol { name: "spl0".to_owned(), reg: 0 });
        syms.push(Symbol { name: "spl1".to_owned(), reg: 1 });
        syms.push(Symbol { name: "srate".to_owned(), reg: 2 });
        assert(bound_of(syms@) =~= first_scope().bound);
        Compiler { syms, next_reg: 3 }
    }

    fn reg_of(&mut self, name: &String) -> (r: Option<u16>)
        ensures
            match r {
                Some(reg) => {
                    &&& reg == register(old(self).scope(), name@)
                    &&& final(self).scope() == with_name(old(self).scope(), name@)
                    &&& lookup(final(self).scope().bound, name@) == Some(reg as int)
                    &&& crate::script::registers::apart(old(self).scope())
                        ==> crate::script::registers::apart(final(self).scope())
                },
                None => with_name(old(self).scope(), name@).next > u16::MAX,
            },
    {
        proof {
            if crate::script::registers::apart(self.scope()) {
                crate::script::registers::law_registers_stay_apart(self.scope(), name@);
            }
        }
        let mut i: usize = self.syms.len();
        assert(bound_of(self.syms@).take(i as int) =~= bound_of(self.syms@));
        while i > 0
            invariant
                i <= self.syms@.len(),
                self == old(self),
                crate::script::registers::apart(self.scope()) ==> crate::script::registers::apart(
                    with_name(self.scope(), name@),
                ),
                lookup(bound_of(self.syms@), name@) == lookup(
                    bound_of(self.syms@).take(i as int),
                    name@,
                ),
            decreases i,
        {
            let sym = &self.syms[i - 1];
            assert(bound_of(self.syms@).take(i as int).drop_last() =~= bound_of(self.syms@).take(
                i - 1,
            ));
            if same_text(sym.name.as_str(), name.as_str()) {
                return Some(sym.reg);
            }
            i -= 1;
        }
        if self.next_reg == u16::MAX {
            return None;
        }
        let reg: u16 = self.next_reg;
        self.next_reg = reg + 1;
        self.syms.push(Symbol { name: name.clone(), reg });
        assert(bound_of(self.syms@) =~= bound_of(old(self).syms@).push((name@, reg as int)));
        Some(reg)
    }

    fn compile_expr(&mut self, expr: &Expr, out: &mut Vec<Op>) -> (r: Result<(), Stop>)
        requires
            old(out)@.len() <= u32::MAX,
        ensures
            compiled(
                r,
                old(out)@,
                final(out)@,
                final(self).scope(),
                expr_code(expr@, old(self).scope(), old(out)@.len() as int),
            ),
        decreases expr, 1int,
    {
        proof {
            reveal(binary_joined);
        }
        let ghost at = out@.len() as int;
        let ghost scope = self.scope();
        let ghost code = expr_code(expr@, scope, at);
        let ghost start = op_views(out@);
        match expr {
            Expr::Num(n) => {
                if !emit(out, Op::PushConst(Num::Text(n.clone()))) {
                    return Err(Stop::Full);
                }
            },
            Expr::Const(c) => {
                let bits: u32 = match c {
                    Const::Pi => PI_BITS,
                    Const::E => E_BITS,
                };
                if !emit(out, Op::PushConst(Num::Bits(bits))) {
                    return Err(Stop::Full);
                }
            },
            Expr::Var(name) => {
                let reg: u16 = match self.reg_of(name) {
                    Some(reg) => reg,
                    None => {
                        return Err(Stop::Full);
                    },
                };
                if !emit(out, Op::LoadReg(reg)) {
                    return Err(Stop::Full);
                }
            },
            Expr::Unary(op, operand) => {
                if let Err(stop) = self.compile_expr(operand, out) {
                    return Err(stop);
                }
                let last = match op {
                    UnOp::Neg => Op::Neg,
                    UnOp::Not => Op::Not,
                };
                if !emit(out, last) {
                    return Err(Stop::Full);
                }
            },
            Expr::Binary(op, left, right) => {
                let ghost a = expr_code(left@, scope, at);
                proof {
                    lemma_registers_grow(right@, a.scope, at + a.ops.len());
                }
                if let Err(stop) = self.compile_expr(left, out) {
                    return Err(stop);
                }
                if let Err(stop) = self.compile_expr(right, out) {
                    return Err(stop);
                }
                if !emit(out, binary_instruction(*op)) {
                    return Err(Stop::Full);
                }
            },
            Expr::Call(_, _) => {
                return self.compile_call(expr, out);
            },
            Expr::If(_, _, _) => {
                return self.compile_if(expr, out);
            },
            Expr::While(_, _) => {
                return self.compile_while(expr, out);
            },
            Expr::Loop(_, _) => {
                return self.compile_loop(expr, out);
            },
        }
        assert(op_views(out@) =~= start + code.ops);
        Ok(())
    }

    fn compile_call(&mut self, expr: &Expr, out: &mut Vec<Op>) -> (r: Result<(), Stop>)
        requires
            expr is Call,
            old(out)@.len() <= u32::MAX,
        ensures
            compiled(
                r,
                old(out)@,
                final(out)@,
                final(self).scope(),
                expr_code(expr@, old(self).scope(), old(out)@.len() as int),
            ),
        decreases expr, 0int,
    {
        proof {
            reveal(call_joined);
        }
        let ghost at = out@.len() as int;
        let ghost scope = self.scope();
        let ghost code = expr_code(expr@, scope, at);
        let ghost start = out@;
        assert(op_views(start).len() == start.len());
        let (name, args) = match expr {
            Expr::Call(name, args) => (name, args),
            _ => {
                return Err(Stop::Full);
            },
        };
        let ghost es = crate::script::parser::expr_views(args@);
        proof {
            crate::script::parser::lemma_exprs_index(args@);
        }
        let (builtin, n) = match Builtin::from_name(name.as_str()) {
            Some(x) => x,
            None => {
                return Err(fault(join3("unknown function: ", name.as_str(), "")));
            },
        };
        if args.len() != n {
            let head = join3("function ", name.as_str(), " expects ");
            let mid = if n == 1 {
                " arg, got "
            } else {
                " args, got "
            };
            let tail = join3(
                decimal_text(n as u64).as_str(),
                mid,
                decimal_text(args.len() as u64).as_str(),
            );
            let text = join3(head.as_str(), tail.as_str(), "");
            proof {
                reveal_strlit("");
            }
            assert(text@ =~= arity_text(name@, builtin, es.len()));
            return Err(fault(text));
        }
        let mut i: usize = 0;
        assert(es.take(0) =~= Seq::empty());
        assert(op_views(out@) =~= op_views(start) + exprs_code(es.take(0), scope, at).ops);
        while i < args.len()
            invariant
                i <= args@.len(),
                es == crate::script::parser::expr_views(args@),
                es.len() == args@.len(),
                forall|k: int| 0 <= k < args@.len() ==> #[trigger] es[k] == args@[k]@,
                at == start.len(),
                start == old(out)@,
                scope == old(self).scope(),
                expr is Call && args == expr->Call_1,
                start.len() <= u32::MAX,
                code == closed_by(exprs_code(es, scope, at), seq![OpView::Call(builtin)]),
                code == expr_code(expr@, scope, at),
                op_views(start).len() == start.len(),
                exprs_code(es.take(i as int), scope, at).error is None,
                fits(exprs_code(es.take(i as int), scope, at), at),
                self.scope() == exprs_code(es.take(i as int), scope, at).scope,
                op_views(out@) == op_views(start) + exprs_code(es.take(i as int), scope, at).ops,
            decreases args@.len() - i,
        {
            let ghost done = exprs_code(es.take(i as int), scope, at);
            proof {
                lemma_exprs_prefix(es, i + 1, scope, at);
                assert(es.take(i + 1).drop_last() =~= es.take(i as int));
                assert(es.take(i + 1).last() == args@[i as int]@);
                assert(out@.len() == op_views(out@).len());
                assert(op_views(start).len() == start.len());
            }
            if let Err(stop) = self.compile_expr(&args[i], out) {
                return Err(stop);
            }
            i += 1;
            assert(op_views(out@) =~= op_views(start) + exprs_code(
                es.take(i as int),
                scope,
                at,
            ).ops);
        }
        assert(es.take(i as int) =~= es);
        assert(out@.len() == op_views(out@).len());
        if !emit(out, Op::Call(builtin)) {
            return Err(Stop::Full);
        }
        assert(op_views(out@) =~= op_views(start) + code.ops);
        Ok(())
    }

    fn compile_if(&mut self, expr: &Expr, out: &mut Vec<Op>) -> (r: Result<(), Stop>)
        requires
            expr is If,
            old(out)@.len() <= u32::MAX,
        ensures
            compiled(
                r,
                old(out)@,
                final(out)@,
                final(self).scope(),
                expr_code(expr@, old(self).scope(), old(out)@.len() as int),
            ),
        decreases expr, 0int,
    {
        proof {
            reveal(if_joined);
        }
        let ghost at = out@.len() as int;
        let ghost scope = self.scope();
        let ghost code = expr_code(expr@, scope, at);
        let ghost start = out@;
        assert(op_views(start).len() == start.len());
        let (cond, then, other) = match expr {
            Expr::If(cond, then, other) => (cond, then, other),
            _ => {
                return Err(Stop::Full);
            },
        };
        let ghost c = expr_code(cond@, scope, at);
        let ghost t_at = at + c.ops.len() + 1;
        let ghost t = expr_code(then@, c.scope, t_at);
        let ghost e_at = t_at + t.ops.len() + 1;
        let ghost o = expr_code(other@, t.scope, e_at);
        proof {
            lemma_registers_grow(then@, c.scope, t_at);
            lemma_registers_grow(other@, t.scope, e_at);
        }
        if let Err(stop) = self.compile_expr(cond, out) {
            return Err(stop);
        }
        let jump_over: usize = out.len();
        if !emit(out, Op::JumpIfFalse(u32::MAX)) {
            return Err(Stop::Full);
        }
        if let Err(stop) = self.compile_expr(then, out) {
            return Err(stop);
        }
        let jump_end: usize = out.len();
        if !emit(out, Op::Jump(u32::MAX)) {
            return Err(Stop::Full);
        }
        let else_target: u32 = out.len() as u32;
        patch(out, jump_over, Op::JumpIfFalse(else_target));
        let ghost head = c.ops.push(OpView::JumpIfFalse(e_at)) + t.ops;
        assert(op_views(out@) =~= op_views(start) + head.push(OpView::Jump(u32::MAX as int)));
        if let Err(stop) = self.compile_expr(other, out) {
            return Err(stop);
        }
        let end_target: u32 = out.len() as u32;
        patch(out, jump_end, Op::Jump(end_target));
        assert(op_views(out@) =~= op_views(start) + (head.push(OpView::Jump(e_at + o.ops.len()))
            + o.ops));
        Ok(())
    }

    fn compile_while(&mut self, expr: &Expr, out: &mut Vec<Op>) -> (r: Result<(), Stop>)
        requires
            expr is While,
            old(out)@.len() <= u32::MAX,
        ensures
            compiled(
                r,
                old(out)@,
                final(out)@,
                final(self).scope(),
                expr_code(expr@, old(self).scope(), old(out)@.len() as int),
            ),
        decreases expr, 0int,
    {
        proof {
            reveal(while_joined);
        }
        let ghost at = out@.len() as int;
        let ghost scope = self.scope();
        let ghost code = expr_code(expr@, scope, at);
        let ghost start = out@;
        assert(op_views(start).len() == start.len());
        let (cond, body) = match expr {
            Expr::While(cond, body) => (cond, body),
            _ => {
                return Err(Stop::Full);
            },
        };
        let ghost ss = crate::script::parser::stmt_views(body@);
        let ghost c = expr_code(cond@, scope, at);
        let ghost b_at = at + c.ops.len() + 1;
        let ghost b = stmts_code(ss, c.scope, b_at);
        proof {
            lemma_stmts_registers_grow(ss, c.scope, b_at);
        }
        let top: u32 = out.len() as u32;
        if let Err(stop) = self.compile_expr(cond, out) {
            return Err(stop);
        }
        let jump_out: usize = out.len();
        if !emit(out, Op::JumpIfFalse(u32::MAX)) {
            return Err(Stop::Full);
        }
        if let Err(stop) = self.compile_stmts(body, out) {
            return Err(stop);
        }
        if !emit(out, Op::Jump(top)) {
            return Err(Stop::Full);
        }
        let end: u32 = out.len() as u32;
        patch(out, jump_out, Op::JumpIfFalse(end));
        assert(op_views(out@) =~= op_views(start) + (c.ops.push(
            OpView::JumpIfFalse(b_at + b.ops.len() + 1),
        ) + b.ops + seq![OpView::Jump(at)]));
        Ok(())
    }

    fn compile_loop(&mut self, expr: &Expr, out: &mut Vec<Op>) -> (r: Result<(), Stop>)
        requires
            expr is Loop,
            old(out)@.len() <= u32::MAX,
        ensures
            compiled(
                r,
                old(out)@,
                final(out)@,
                final(self).scope(),
                expr_code(expr@, old(self).scope(), old(out)@.len() as int),
            ),
        decreases expr, 0int,
    {
        proof {
            reveal(loop_joined);
        }
        let ghost at = out@.len() as int;
        let ghost scope = self.scope();
        let ghost code = expr_code(expr@, scope, at);
        let ghost start = out@;
        assert(op_views(start).len() == start.len());
        let (count, body) = match expr {
            Expr::Loop(count, body) => (count, body),
            _ => {
                return Err(Stop::Full);
            },
        };
        let ghost ss = crate::script::parser::stmt_views(body@);
        let ghost n = expr_code(count@, with_counter(scope), at);
        let ghost top_at = at + n.ops.len() + 1;
        let ghost b = stmts_code(ss, n.scope, top_at + 4);
        proof {
            lemma_registers_grow(count@, with_counter(scope), at);
            lemma_stmts_registers_grow(ss, n.scope, top_at + 4);
        }
        if self.next_reg == u16::MAX {
            return Err(Stop::Full);
        }
        let counter: u16 = self.next_reg;
        self.next_reg = counter + 1;
        if let Err(stop) = self.compile_expr(count, out) {
            return Err(stop);
        }
        if !emit(out, Op::StoreReg(counter)) {
            return Err(Stop::Full);
        }
        let top: u32 = out.len() as u32;
        if !emit(out, Op::LoadReg(counter)) {
            return Err(Stop::Full);
        }
        if !emit(out, Op::PushConst(Num::Bits(0))) {
            return Err(Stop::Full);
        }
        if !emit(out, Op::Gt) {
            return Err(Stop::Full);
        }
        let jump_out: usize = out.len();
        if !emit(out, Op::JumpIfFalse(u32::MAX)) {
            return Err(Stop::Full);
        }
        if let Err(stop) = self.compile_stmts(body, out) {
            return Err(stop);
        }
        if !emit(out, Op::LoadReg(counter)) {
            return Err(Stop::Full);
        }
        if !emit(out, Op::PushConst(Num::Bits(ONE_BITS))) {
            return Err(Stop::Full);
        }
        if !emit(out, Op::Sub) {
            return Err(Stop::Full);
        }
        if !emit(out, Op::StoreReg(counter)) {
            return Err(Stop::Full);
        }
        if !emit(out, Op::Jump(top)) {
            return Err(Stop::Full);
        }
        let end: u32 = out.len() as u32;
        patch(out, jump_out, Op::JumpIfFalse(end));
        assert(op_views(out@) =~= op_views(start) + code.ops);
        Ok(())
    }

    fn compile_stmt(&mut self, stmt: &Stmt, out: &mut Vec<Op>) -> (r: Result<(), Stop>)
        requires
            old(out)@.len() <= u32::MAX,
        ensures
            compiled(
                r,
                old(out)@,
                final(out)@,
                final(self).scope(),
                stmt_code(stmt@, old(self).scope(), old(out)@.len() as int),
            ),
        decreases stmt, 0int,
    {
        proof {
            reveal(assign_joined);
        }
        let ghost at = out@.len() as int;
        let ghost scope = self.scope();
        let ghost code = stmt_code(stmt@, scope, at);
        let ghost start = op_views(out@);
        assert(start.len() == out@.len());
        match stmt {
            Stmt::Assign { name, op, value } => {
                if same_text(name.as_str(), "srate") {
                    return Err(fault("srate is read-only".to_owned()));
                }
                proof {
                    lemma_registers_grow(value@, with_name(scope, name@), at);
                    lemma_registers_grow(value@, with_name(scope, name@), at + 1);
                }
                let reg: u16 = match self.reg_of(name) {
                    Some(reg) => reg,
                    None => {
                        return Err(Stop::Full);
                    },
                };
                let last = match op {
                    AssignOp::Eq => None,
                    AssignOp::PlusEq => Some(Op::Add),
                    AssignOp::MinusEq => Some(Op::Sub),
                    AssignOp::StarEq => Some(Op::Mul),
                    AssignOp::SlashEq => Some(Op::Div),
                };
                if last.is_some() {
                    if !emit(out, Op::LoadReg(reg)) {
                        return Err(Stop::Full);
                    }
                }
                        if let Err(stop) = self.compile_expr(value, out) {
                    return Err(stop);
                }
                        if let Some(f) = last {
                    if !emit(out, f) {
                        return Err(Stop::Full);
                    }
                }
                if !emit(out, Op::StoreReg(reg)) {
                    return Err(Stop::Full);
                }
            },
            Stmt::Expr(e) => {
                if let Err(stop) = self.compile_expr(e, out) {
                    return Err(stop);
                }
                        if !emit(out, Op::Pop) {
                    return Err(Stop::Full);
                }
            },
        }
        assert(op_views(out@) =~= start + code.ops);
        Ok(())
    }

    fn compile_stmts(&mut self, stmts: &Vec<Stmt>, out: &mut Vec<Op>) -> (r: Result<(), Stop>)
        requires
            old(out)@.len() <= u32::MAX,
        ensures
            compiled(
                r,
                old(out)@,
                final(out)@,
                final(self).scope(),
                stmts_code(
                    crate::script::parser::stmt_views(stmts@),
                    old(self).scope(),
                    old(out)@.len() as int,
                ),
            ),
        decreases stmts, 0int,
    {
        let ghost at = out@.len() as int;
        let ghost scope = self.scope();
        let ghost ss = crate::script::parser::stmt_views(stmts@);
        let ghost start = out@;
        proof {
            crate::script::parser::lemma_stmts_index(stmts@);
            assert(op_views(start).len() == start.len());
            assert(ss.take(0) =~= Seq::empty());
            assert(op_views(out@) =~= op_views(start) + stmts_code(ss.take(0), scope, at).ops);
        }
        let mut i: usize = 0;
        while i < stmts.len()
            invariant
                i <= stmts@.len(),
                ss == crate::script::parser::stmt_views(stmts@),
                ss.len() == stmts@.len(),
                forall|k: int| 0 <= k < stmts@.len() ==> #[trigger] ss[k] == stmts@[k]@,
                at == start.len(),
                start == old(out)@,
                scope == old(self).scope(),
                start.len() <= u32::MAX,
                op_views(start).len() == start.len(),
                stmts_code(ss.take(i as int), scope, at).error is None,
                fits(stmts_code(ss.take(i as int), scope, at), at),
                self.scope() == stmts_code(ss.take(i as int), scope, at).scope,
                op_views(out@) == op_views(start) + stmts_code(ss.take(i as int), scope, at).ops,
            decreases stmts@.len() - i,
        {
            proof {
                lemma_stmts_prefix(ss, i + 1, scope, at);
                assert(ss.take(i + 1).drop_last() =~= ss.take(i as int));
                assert(ss.take(i + 1).last() == stmts@[i as int]@);
                assert(out@.len() == op_views(out@).len());
            }
            if let Err(stop) = self.compile_stmt(&stmts[i], out) {
                return Err(stop);
            }
            i += 1;
            assert(op_views(out@) =~= op_views(start) + stmts_code(
                ss.take(i as int),
                scope,
                at,
            ).ops);
        }
        assert(ss.take(i as int) =~= ss);
        Ok(())
    }
}

/// Compiles a script, or says `None` where it needs more registers than 16 bits or more places
/// than 32 bits can count.
pub fn try_compile_ast(ast: &Ast) -> (r: Option<Result<Program, ScriptError>>)
    ensures
        match r {
            None => !script_fits(ast@),
            Some(Ok(p)) => script_fits(ast@) && p.reserved() && script_code(ast@) == Ok::<
                _,
                ScriptErrorView,
            >(p@),
            Some(Err(e)) => script_fits(ast@) && script_code(ast@) == Err::<ProgramView, _>(e@),
        },
{
    let mut compiler = Compiler::new();
    let mut init: Vec<Op> = Vec::new();
    match compiler.compile_stmts(&ast.init, &mut init) {
        Ok(()) => {},
        Err(Stop::Fault(e)) => {
            return Some(Err(e));
        },
        Err(Stop::Full) => {
            return None;
        },
    }
    let mut sample: Vec<Op> = Vec::new();
    match compiler.compile_stmts(&ast.sample, &mut sample) {
        Ok(()) => {},
        Err(Stop::Fault(e)) => {
            return Some(Err(e));
        },
        Err(Stop::Full) => {
            return None;
        },
    }
    proof {
        let a = stmts_code(ast@.init, first_scope(), 0);
        assert(op_views(Seq::<Op>::empty()) =~= Seq::empty());
        assert(op_views(init@) =~= a.ops);
        assert(op_views(sample@) =~= stmts_code(ast@.sample, a.scope, 0).ops);
    }
    Some(
        Ok(
            Program {
                init,
                sample,
                num_regs: compiler.next_reg as usize,
                spl0_reg: 0,
                spl1_reg: 1,
                srate_reg: 2,
            },
        ),
    )
}

/// Compiles a script that stays within 16 bit registers and 32 bit places.
pub fn compile_ast(ast: &Ast) -> (r: Result<Program, ScriptError>)
    requires
        script_fits(ast@),
    ensures
        match r {
            Ok(p) => p.reserved() && script_code(ast@) == Ok::<_, ScriptErrorView>(p@),
            Err(e) => script_code(ast@) == Err::<ProgramView, _>(e@),
        },
{
    try_compile_ast(ast).unwrap()
}

/// An instruction that uses registers below `regs` only, does not write register 2, and jumps
/// only to places from `lo` to `hi`.
pub open spec fn sound_op(op: OpView, regs: int, lo: int, hi: int) -> bool {
    match op {
        OpView::LoadReg(r) => 0 <= r < regs,
        OpView::StoreReg(r) => 0 <= r < regs && r != 2,
        OpView::JumpIfFalse(t) => lo <= t <= hi,
        OpView::Jump(t) => lo <= t <= hi,
        _ => true,
    }
}

/// Every instruction is sound.
pub open spec fn sound(ops: Seq<OpView>, regs: int, lo: int, hi: int) -> bool {
    forall|i: int| 0 <= i < ops.len() ==> sound_op(#[trigger] ops[i], regs, lo, hi)
}

/// Every bound register is in use and has a name of its own, and register 2 belongs to `srate`
/// alone.
pub open spec fn scope_ok(scope: Scope) -> bool {
    &&& scope.next >= 3
    &&& crate::script::registers::apart(scope)
    &&& forall|i: int|
        0 <= i < scope.bound.len() ==> 0 <= (#[trigger] scope.bound[i]).1 < scope.next && (
        scope.bound[i].1 == 2 ==> scope.bound[i].0 == "srate"@)
}

/// A register that is found is bound to the name.
pub proof fn lemma_lookup(bound: Seq<(Seq<char>, int)>, name: Seq<char>)
    ensures
        lookup(bound, name) matches Some(r) ==> exists|i: int|
            0 <= i < bound.len() && (#[trigger] bound[i]).0 == name && bound[i].1 == r,
    decreases bound.len(),
{
    if bound.len() > 0 && bound.last().0 != name {
        lemma_lookup(bound.drop_last(), name);
        if let Some(r) = lookup(bound.drop_last(), name) {
            let i = choose|i: int|
                0 <= i < bound.drop_last().len() && (#[trigger] bound.drop_last()[i]).0 == name
                    && bound.drop_last()[i].1 == r;
            assert(bound[i].0 == name && bound[i].1 == r);
        }
    } else if bound.len() > 0 {
        assert(bound[bound.len() - 1].0 == name);
    }
}

proof fn lemma_register_ok(scope: Scope, name: Seq<char>)
    requires
        scope_ok(scope),
    ensures
        scope_ok(with_name(scope, name)),
        0 <= register(scope, name) < with_name(scope, name).next,
        register(scope, name) == 2 ==> name == "srate"@,
{
    lemma_lookup(scope.bound, name);
    crate::script::registers::law_registers_stay_apart(scope, name);
}

/// The code of an expression is sound, with jumps no further than to the place behind it.
pub proof fn lemma_expr_sound(e: ExprView, scope: Scope, at: int)
    requires
        scope_ok(scope),
    ensures
        scope_ok(expr_code(e, scope, at).scope),
        expr_code(e, scope, at).error is None ==> sound(
            expr_code(e, scope, at).ops,
            expr_code(e, scope, at).scope.next,
            at,
            at + expr_code(e, scope, at).ops.len(),
        ),
    decreases e,
{
    match e {
        ExprView::Num(_) | ExprView::Const(_) => {},
        ExprView::Var(name) => {
            lemma_register_ok(scope, name);
        },
        ExprView::Unary(_, a) => {
            lemma_expr_sound(*a, scope, at);
        },
        ExprView::Binary(_, a, b) => {
            reveal(binary_joined);
            lemma_expr_sound(*a, scope, at);
            let c = expr_code(*a, scope, at);
            lemma_expr_sound(*b, c.scope, at + c.ops.len());
            lemma_registers_grow(*b, c.scope, at + c.ops.len());
        },
        ExprView::Call(_, args) => {
            reveal(call_joined);
            lemma_exprs_sound(args, scope, at);
        },
        ExprView::If(a, b, o) => {
            reveal(if_joined);
            lemma_expr_sound(*a, scope, at);
            let c = expr_code(*a, scope, at);
            let t_at = at + c.ops.len() + 1;
            lemma_expr_sound(*b, c.scope, t_at);
            lemma_registers_grow(*b, c.scope, t_at);
            let t = expr_code(*b, c.scope, t_at);
            let e_at = t_at + t.ops.len() + 1;
            lemma_expr_sound(*o, t.scope, e_at);
            lemma_registers_grow(*o, t.scope, e_at);
        },
        ExprView::While(a, body) => {
            reveal(while_joined);
            lemma_expr_sound(*a, scope, at);
            let c = expr_code(*a, scope, at);
            lemma_stmts_sound(body, c.scope, at + c.ops.len() + 1);
            lemma_stmts_registers_grow(body, c.scope, at + c.ops.len() + 1);
        },
        ExprView::Loop(n, body) => {
            reveal(loop_joined);
            lemma_expr_sound(*n, with_counter(scope), at);
            lemma_registers_grow(*n, with_counter(scope), at);
            let c = expr_code(*n, with_counter(scope), at);
            lemma_stmts_sound(body, c.scope, at + c.ops.len() + 1 + 4);
            lemma_stmts_registers_grow(body, c.scope, at + c.ops.len() + 1 + 4);
        },
    }
}

proof fn lemma_exprs_sound(es: Seq<ExprView>, scope: Scope, at: int)
    requires
        scope_ok(scope),
    ensures
        scope_ok(exprs_code(es, scope, at).scope),
        exprs_code(es, scope, at).error is None ==> sound(
            exprs_code(es, scope, at).ops,
            exprs_code(es, scope, at).scope.next,
            at,
            at + exprs_code(es, scope, at).ops.len(),
        ),
    decreases es,
{
    if es.len() > 0 {
        lemma_exprs_sound(es.drop_last(), scope, at);
        let a = exprs_code(es.drop_last(), scope, at);
        lemma_expr_sound(es.last(), a.scope, at + a.ops.len());
        lemma_registers_grow(es.last(), a.scope, at + a.ops.len());
    }
}

proof fn lemma_stmt_sound(s: StmtView, scope: Scope, at: int)
    requires
        scope_ok(scope),
    ensures
        scope_ok(stmt_code(s, scope, at).scope),
        stmt_code(s, scope, at).error is None ==> sound(
            stmt_code(s, scope, at).ops,
            stmt_code(s, scope, at).scope.next,
            at,
            at + stmt_code(s, scope, at).ops.len() - 1,
        ),
    decreases s,
{
    match s {
        StmtView::Assign { name, op, value } => {
            reveal(assign_joined);
            lemma_register_ok(scope, name);
            let inner = with_name(scope, name);
            lemma_expr_sound(value, inner, at);
            lemma_expr_sound(value, inner, at + 1);
            lemma_registers_grow(value, inner, at);
            lemma_registers_grow(value, inner, at + 1);
        },
        StmtView::Expr(e) => {
            lemma_expr_sound(e, scope, at);
        },
    }
}

/// The code of statements is sound, with jumps to places inside it only.
pub proof fn lemma_stmts_sound(ss: Seq<StmtView>, scope: Scope, at: int)
    requires
        scope_ok(scope),
    ensures
        scope_ok(stmts_code(ss, scope, at).scope),
        stmts_code(ss, scope, at).error is None ==> sound(
            stmts_code(ss, scope, at).ops,
            stmts_code(ss, scope, at).scope.next,
            at,
            at + stmts_code(ss, scope, at).ops.len() - 1,
        ),
    decreases ss,
{
    if ss.len() > 0 {
        lemma_stmts_sound(ss.drop_last(), scope, at);
        let a = stmts_code(ss.drop_last(), scope, at);
        lemma_stmt_sound(ss.last(), a.scope, at + a.ops.len());
        lemma_stmt_registers_grow(ss.last(), a.scope, at + a.ops.len());
    }
}

/// In a compiled script every register is below the number of registers the program asks for,
/// every jump leads to an instruction of its own section, and nothing writes `srate`.
pub proof fn law_compiled_code_is_sound(ast: AstView)
    ensures
        script_code(ast) matches Ok(p) ==> sound(p.init, p.num_regs, 0, p.init.len() - 1) && sound(
            p.sample,
            p.num_regs,
            0,
            p.sample.len() - 1,
        ),
{
    reveal_strlit("spl0");
    reveal_strlit("spl1");
    reveal_strlit("srate");
    let first = first_scope();
    crate::script::registers::lemma_first_apart();
    assert(scope_ok(first));
    lemma_stmts_sound(ast.init, first, 0);
    let a = stmts_code(ast.init, first, 0);
    lemma_stmts_sound(ast.sample, a.scope, 0);
    lemma_stmts_registers_grow(ast.sample, a.scope, 0);
}

/// In a compiled script no two variables share a register.
pub proof fn law_compiled_variables_are_apart(ast: AstView)
    ensures
        crate::script::registers::apart(
            stmts_code(ast.sample, stmts_code(ast.init, first_scope(), 0).scope, 0).scope,
        ),
{
    reveal_strlit("spl0");
    reveal_strlit("spl1");
    reveal_strlit("srate");
    let first = first_scope();
    crate::script::registers::lemma_first_apart();
    assert(scope_ok(first));
    lemma_stmts_sound(ast.init, first, 0);
    lemma_stmts_sound(ast.sample, stmts_code(ast.init, first, 0).scope, 0);
}

} // verus!
