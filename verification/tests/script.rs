//! The script language: tokens, syntax, code, and runs with the arithmetic of this machine.

use hypemuzik::script::compiler::Num;
use hypemuzik::script::lexer::{lex, ConstKind, OpTok, Token};
use hypemuzik::script::parser::{parse, AssignOp, Ast, BinOp, Const, Expr, Stmt, UnOp};
use hypemuzik::script::stage::{bound_sample, ScriptProcessor};
use hypemuzik::script::vm::{self, load_frame, read_frame, End, Machine, Request, Step};
use hypemuzik::script::{compile, try_compile, Builtin, Op, Program, ScriptError};

fn nodes(src: &str) -> Vec<Token> {
    lex(src).unwrap().into_iter().map(|s| s.node).collect()
}

fn number(text: &str, value: f64) -> Token {
    assert_eq!(text.parse::<f64>().unwrap(), value);
    Token::Num(text.to_string())
}

#[test]
fn test_basic_expression() {
    let toks = nodes("spl0 = spl0 * 0.5;");
    assert_eq!(
        toks,
        vec![
            Token::Ident("spl0".to_string()),
            Token::Op(OpTok::Assign),
            Token::Ident("spl0".to_string()),
            Token::Op(OpTok::Star),
            number("0.5", 0.5),
            Token::Semicolon,
        ]
    );
}

#[test]
fn test_section_markers() {
    let toks = nodes("@init\n@sample");
    assert_eq!(toks, vec![Token::SectionInit, Token::SectionSample]);
}

#[test]
fn test_floats() {
    assert_eq!(nodes("0.5"), vec![number("0.5", 0.5)]);
    assert_eq!(nodes("1.0"), vec![number("1.0", 1.0)]);
    assert_eq!(nodes("42"), vec![number("42", 42.0)]);
    assert_eq!(nodes(".5"), vec![number(".5", 0.5)]);
    assert_eq!(nodes("1e3"), vec![number("1e3", 1000.0)]);
}

#[test]
fn test_multi_char_ops() {
    let toks = nodes("a <= b && c == d");
    assert_eq!(
        toks,
        vec![
            Token::Ident("a".to_string()),
            Token::Op(OpTok::Le),
            Token::Ident("b".to_string()),
            Token::Op(OpTok::AndAnd),
            Token::Ident("c".to_string()),
            Token::Op(OpTok::EqEq),
            Token::Ident("d".to_string()),
        ]
    );
}

#[test]
fn test_comment_and_newline_tracking() {
    let src = "a\n// this is a comment\nb";
    let spanned = lex(src).unwrap();
    assert_eq!(spanned.len(), 2);
    assert_eq!(spanned[0].node, Token::Ident("a".to_string()));
    assert_eq!(spanned[0].line, 1);
    assert_eq!(spanned[0].col, 1);
    assert_eq!(spanned[1].node, Token::Ident("b".to_string()));
    assert_eq!(spanned[1].line, 3);
    assert_eq!(spanned[1].col, 1);
}

#[test]
fn test_illegal_char() {
    let err = lex("a # b").unwrap_err();
    assert_eq!(err.line, 1);
    assert_eq!(err.col, 3);
}

#[test]
fn lexer_test_const_pi() {
    let toks = nodes("$pi");
    assert_eq!(toks, vec![Token::Const(ConstKind::Pi)]);
}

#[test]
fn test_const_e() {
    let toks = nodes("$e");
    assert_eq!(toks, vec![Token::Const(ConstKind::E)]);
}

#[test]
fn test_section_block() {
    let toks = nodes("@block");
    assert_eq!(toks, vec![Token::SectionBlock]);
}

#[test]
fn test_assign_ops() {
    let toks = nodes("x += 1; y -= 2; z *= 3; w /= 4;");
    assert_eq!(toks[1], Token::Op(OpTok::PlusEq));
    assert_eq!(toks[5], Token::Op(OpTok::MinusEq));
    assert_eq!(toks[9], Token::Op(OpTok::StarEq));
    assert_eq!(toks[13], Token::Op(OpTok::SlashEq));
}

#[test]
fn test_case_insensitive_ident() {
    let toks = nodes("SPL0");
    assert_eq!(toks, vec![Token::Ident("spl0".to_string())]);
}

fn ast(src: &str) -> Ast {
    let toks = lex(src).expect("lexing should succeed");
    parse(&toks).expect("parsing should succeed")
}

fn parse_err(src: &str) -> ScriptError {
    let toks = lex(src).expect("lexing should succeed");
    parse(&toks).expect_err("parsing should fail")
}

fn num(text: &str, value: f64) -> Expr {
    assert_eq!(text.parse::<f64>().unwrap(), value);
    Expr::Num(text.to_string())
}

fn var(name: &str) -> Expr {
    Expr::Var(name.to_string())
}

fn bin(op: BinOp, l: Expr, r: Expr) -> Expr {
    Expr::Binary(op, Box::new(l), Box::new(r))
}

#[test]
fn test_precedence_mul_over_add() {
    let a = ast("1+2*3;");
    assert_eq!(a.sample.len(), 1);
    let expected = bin(
        BinOp::Add,
        num("1", 1.0),
        bin(BinOp::Mul, num("2", 2.0), num("3", 3.0)),
    );
    assert_eq!(a.sample[0], Stmt::Expr(expected));
}

#[test]
fn test_right_assoc_pow() {
    let a = ast("2^3^2;");
    let expected = bin(
        BinOp::Pow,
        num("2", 2.0),
        bin(BinOp::Pow, num("3", 3.0), num("2", 2.0)),
    );
    assert_eq!(a.sample[0], Stmt::Expr(expected));
}

#[test]
fn test_assign_stmt() {
    let a = ast("spl0 = spl0 * 0.5;");
    assert_eq!(a.init.len(), 0);
    assert_eq!(a.sample.len(), 1);
    assert_eq!(
        a.sample[0],
        Stmt::Assign {
            name: "spl0".to_string(),
            op: AssignOp::Eq,
            value: bin(BinOp::Mul, var("spl0"), num("0.5", 0.5)),
        }
    );
}

#[test]
fn test_if_expr() {
    let a = ast("if(spl0>0, spl0, -spl0);");
    let expected = Expr::If(
        Box::new(bin(BinOp::Gt, var("spl0"), num("0", 0.0))),
        Box::new(var("spl0")),
        Box::new(Expr::Unary(UnOp::Neg, Box::new(var("spl0")))),
    );
    assert_eq!(a.sample[0], Stmt::Expr(expected));
}

#[test]
fn test_bare_script_defaults_to_sample() {
    let a = ast("spl0 = spl0 * 0.5;");
    assert!(a.init.is_empty());
    assert_eq!(a.sample.len(), 1);
    assert_eq!(
        a.sample[0],
        Stmt::Assign {
            name: "spl0".to_string(),
            op: AssignOp::Eq,
            value: bin(BinOp::Mul, var("spl0"), num("0.5", 0.5)),
        }
    );
}

#[test]
fn test_sections() {
    let a = ast("@init n = 0; @sample n = n + 1;");
    assert_eq!(a.init.len(), 1);
    assert_eq!(a.sample.len(), 1);
    assert_eq!(
        a.init[0],
        Stmt::Assign {
            name: "n".to_string(),
            op: AssignOp::Eq,
            value: num("0", 0.0),
        }
    );
    assert_eq!(
        a.sample[0],
        Stmt::Assign {
            name: "n".to_string(),
            op: AssignOp::Eq,
            value: bin(BinOp::Add, var("n"), num("1", 1.0)),
        }
    );
}

#[test]
fn test_missing_paren() {
    let err = parse_err("if(spl0>0, spl0");
    assert!(err.line >= 1);
    assert!(!err.message.text("").is_empty());
}

#[test]
fn test_logical_precedence() {
    let a = ast("a && b || c;");
    let expected = bin(
        BinOp::Or,
        bin(BinOp::And, var("a"), var("b")),
        var("c"),
    );
    assert_eq!(a.sample[0], Stmt::Expr(expected));
}

#[test]
fn test_while() {
    let a = ast("while(spl0>0) ( spl0 = spl0 - 1; );");
    let expected = Expr::While(
        Box::new(bin(BinOp::Gt, var("spl0"), num("0", 0.0))),
        vec![Stmt::Assign {
            name: "spl0".to_string(),
            op: AssignOp::Eq,
            value: bin(BinOp::Sub, var("spl0"), num("1", 1.0)),
        }],
    );
    assert_eq!(a.sample[0], Stmt::Expr(expected));
}

#[test]
fn test_function_call() {
    let a = ast("sqrt(spl0);");
    let expected = Expr::Call("sqrt".to_string(), vec![var("spl0")]);
    assert_eq!(a.sample[0], Stmt::Expr(expected));
}

#[test]
fn test_block_section_ignored() {
    let a = ast("@init a = 1; @block b = 2; @sample c = 3;");
    assert_eq!(a.init.len(), 1);
    assert_eq!(a.sample.len(), 1);
}

#[test]
fn test_loop_count_and_block() {
    let a = ast("loop(4) ( a = a + 1; );");
    let expected = Expr::Loop(
        Box::new(num("4", 4.0)),
        vec![Stmt::Assign {
            name: "a".to_string(),
            op: AssignOp::Eq,
            value: bin(BinOp::Add, var("a"), num("1", 1.0)),
        }],
    );
    assert_eq!(a.sample[0], Stmt::Expr(expected));
}

#[test]
fn test_loop_inline_body() {
    let a = ast("loop(4, a + 1);");
    let expected = Expr::Loop(
        Box::new(num("4", 4.0)),
        vec![Stmt::Expr(bin(BinOp::Add, var("a"), num("1", 1.0)))],
    );
    assert_eq!(a.sample[0], Stmt::Expr(expected));
}

#[test]
fn test_compound_assign() {
    let a = ast("gain += 0.1;");
    assert_eq!(
        a.sample[0],
        Stmt::Assign {
            name: "gain".to_string(),
            op: AssignOp::PlusEq,
            value: num("0.1", 0.1),
        }
    );
}

#[test]
fn test_unary_not_and_neg() {
    let a = ast("!a; -b;");
    assert_eq!(
        a.sample[0],
        Stmt::Expr(Expr::Unary(UnOp::Not, Box::new(var("a"))))
    );
    assert_eq!(
        a.sample[1],
        Stmt::Expr(Expr::Unary(UnOp::Neg, Box::new(var("b"))))
    );
}

#[test]
fn test_parenthesised_overrides_precedence() {
    let a = ast("(1+2)*3;");
    let expected = bin(
        BinOp::Mul,
        bin(BinOp::Add, num("1", 1.0), num("2", 2.0)),
        num("3", 3.0),
    );
    assert_eq!(a.sample[0], Stmt::Expr(expected));
}

#[test]
fn parser_test_const_pi() {
    let a = ast("x = $pi;");
    assert_eq!(
        a.sample[0],
        Stmt::Assign {
            name: "x".to_string(),
            op: AssignOp::Eq,
            value: Expr::Const(Const::Pi),
        }
    );
}

#[test]
fn test_multi_arg_call() {
    let a = ast("pow(spl0, 2);");
    assert_eq!(
        a.sample[0],
        Stmt::Expr(Expr::Call(
            "pow".to_string(),
            vec![var("spl0"), num("2", 2.0)]
        ))
    );
}

#[test]
fn test_empty_statement_skipped() {
    let a = ast(";; a = 1 ;;");
    assert_eq!(a.sample.len(), 1);
}

#[test]
fn test_if_wrong_arity() {
    let err = parse_err("if(a, b);");
    assert!(err.message.text("").contains("3 arguments"));
}

#[test]
fn test_basic_gain_opcodes() {
    let prog = compile("spl0=spl0*0.5;").expect("should compile");
    let ops = &prog.sample;
    assert!(ops.contains(&Op::LoadReg(0)), "expected LoadReg(spl0=0), got {:?}", ops);
    assert!(
        ops.contains(&Op::PushConst(Num::Text("0.5".to_string()))),
        "expected PushConst(0.5), got {:?}",
        ops
    );
    assert!(ops.contains(&Op::Mul), "expected Mul, got {:?}", ops);
    assert!(ops.contains(&Op::StoreReg(0)), "expected StoreReg(spl0=0), got {:?}", ops);
    assert!(!prog.sample.is_empty());
    assert_eq!(prog.spl0_reg, 0);
}

#[test]
fn test_unknown_function_error() {
    let err = compile("foo(1);").expect_err("should fail on unknown function");
    let message = err.message.text("");
    assert!(message.contains("unknown function"), "message was: {}", message);
}

#[test]
fn test_srate_read_only() {
    let err = compile("srate = 5;").expect_err("should fail on srate assignment");
    let message = err.message.text("");
    assert!(message.contains("srate"), "message was: {}", message);
    assert!(message.contains("read-only"), "message was: {}", message);
}

#[test]
fn test_sin_correct_arity() {
    compile("sin(1);").expect("sin(1) should compile");
}

#[test]
fn test_sin_wrong_arity() {
    let err = compile("sin(1,2);").expect_err("sin(1,2) should fail");
    let message = err.message.text("");
    assert!(message.contains("sin"), "message was: {}", message);
}

#[test]
fn test_atan2_needs_two_args() {
    let err = compile("atan2(1);").expect_err("atan2(1) should fail");
    let message = err.message.text("");
    assert!(message.contains("atan2"), "message was: {}", message);
}

#[test]
fn test_if_emits_jumps() {
    let prog = compile("if(spl0>0, spl0, 0);").expect("should compile");
    let has_jif = prog.sample.iter().any(|op| matches!(op, Op::JumpIfFalse(_)));
    let has_jmp = prog.sample.iter().any(|op| matches!(op, Op::Jump(_)));
    assert!(has_jif, "expected JumpIfFalse in sample ops");
    assert!(has_jmp, "expected Jump in sample ops");
}

#[test]
fn test_num_regs_counts_vars() {
    let prog = compile("@init a=0; b=0; @sample spl0=spl0*0.5;").expect("should compile");
    assert!(prog.num_regs >= 5, "expected num_regs >= 5, got {}", prog.num_regs);
}

#[test]
fn test_parse_error_propagates() {
    compile("garbage(").expect_err("should fail on bad input");
}

fn has_back_jump(ops: &[Op]) -> bool {
    ops.iter().enumerate().any(|(i, op)| {
        if let Op::Jump(target) = op {
            (*target as usize) < i
        } else {
            false
        }
    })
}

#[test]
fn test_while_back_jump() {
    let prog = compile("while(spl0>0) ( spl0=spl0-1; );").expect("should compile");
    assert!(has_back_jump(&prog.sample), "expected a back-jump, ops: {:?}", prog.sample);
}

#[test]
fn test_loop_back_jump() {
    let prog = compile("loop(4) ( spl0 = spl0 + 1; );").expect("should compile");
    assert!(has_back_jump(&prog.sample), "expected a back-jump, ops: {:?}", prog.sample);
}

#[test]
fn test_compound_plus_eq() {
    let prog = compile("spl0 += 0.1;").expect("should compile");
    assert!(prog.sample.contains(&Op::LoadReg(0)));
    assert!(prog.sample.contains(&Op::Add));
    assert!(prog.sample.contains(&Op::StoreReg(0)));
}

#[test]
fn test_pi_constant() {
    let prog = compile("x = $pi;").expect("should compile");
    let has_pi = prog.sample.iter().any(|op| {
        if let Op::PushConst(Num::Bits(v)) = op {
            (f32::from_bits(*v) - std::f32::consts::PI).abs() < 1e-6
        } else {
            false
        }
    });
    assert!(has_pi, "expected PushConst(PI) in sample ops");
}

#[test]
fn test_srate_can_be_read() {
    compile("spl0 = srate;").expect("reading srate should be fine");
}

/// The arithmetic that the machine asks for.
fn answer(ops: &[Op], what: Request, a: u32, b: u32) -> u32 {
    let (x, y) = (f32::from_bits(a), f32::from_bits(b));
    let v = match what {
        Request::Number(at) => match &ops[at] {
            Op::PushConst(Num::Text(t)) => t.parse::<f64>().unwrap() as f32,
            other => panic!("no number at {at}: {other:?}"),
        },
        Request::Add => x + y,
        Request::Sub => x - y,
        Request::Mul => x * y,
        Request::Div => x / y,
        Request::Mod => x % y,
        Request::Pow => x.powf(y),
        Request::Call(f) => match f {
            Builtin::Sin => x.sin(),
            Builtin::Cos => x.cos(),
            Builtin::Tan => x.tan(),
            Builtin::Asin => x.asin(),
            Builtin::Acos => x.acos(),
            Builtin::Atan => x.atan(),
            Builtin::Sqrt => x.sqrt(),
            Builtin::Exp => x.exp(),
            Builtin::Log => x.ln(),
            Builtin::Log10 => x.log10(),
            Builtin::Abs => x.abs(),
            Builtin::Floor => x.floor(),
            Builtin::Ceil => x.ceil(),
            Builtin::Round => x.round(),
            Builtin::Sign => panic!("the machine knows signs"),
            Builtin::Tanh => x.tanh(),
            Builtin::Atan2 => x.atan2(y),
            Builtin::Pow => x.powf(y),
            Builtin::Min => x.min(y),
            Builtin::Max => x.max(y),
            Builtin::Fmod => x % y,
        },
    };
    v.to_bits()
}

fn run_init(prog: &Program, regs: &mut Vec<u32>, budget: u32) {
    let mut m = Machine::new(0);
    vm::run_init(prog, &mut m, regs, budget, &|w, a, b| answer(&prog.init, w, a, b));
}

fn run_sample(prog: &Program, regs: &mut Vec<u32>, spl: &mut [f32; 2], budget: &mut u32) {
    let mut m = Machine::new(0);
    let pair = (spl[0].to_bits(), spl[1].to_bits());
    let f = |w, a, b| answer(&prog.sample, w, a, b);
    let (l, r) = vm::run_sample(prog, &mut m, regs, pair, budget, &f);
    *spl = [f32::from_bits(l), f32::from_bits(r)];
}

fn make_regs(prog: &Program) -> Vec<u32> {
    vec![0; prog.num_regs]
}

fn once(src: &str, spl: [f32; 2]) -> [f32; 2] {
    let prog = compile(src).expect("compile");
    let mut regs = make_regs(&prog);
    let mut spl = spl;
    let mut budget = 10_000u32;
    run_sample(&prog, &mut regs, &mut spl, &mut budget);
    spl
}

#[test]
fn gain_halves() {
    let spl = once("@sample spl0=spl0*0.5; spl1=spl1*0.5;", [1.0, 0.8]);
    assert!((spl[0] - 0.5).abs() < 1e-6, "spl0 should be 0.5, got {}", spl[0]);
    assert!((spl[1] - 0.4).abs() < 1e-6, "spl1 should be 0.4, got {}", spl[1]);
}

#[test]
fn init_runs_once() {
    let prog = compile("@init n=0; @sample n=n+1; spl0=n;").expect("compile");
    let mut regs = make_regs(&prog);
    run_init(&prog, &mut regs, 10_000);
    let k = 7usize;
    for _ in 0..k {
        let mut spl = [0.0f32; 2];
        let mut budget = 10_000u32;
        run_sample(&prog, &mut regs, &mut spl, &mut budget);
    }
    let mut spl = [0.0f32; 2];
    let mut budget = 10_000u32;
    run_sample(&prog, &mut regs, &mut spl, &mut budget);
    assert!(
        (spl[0] - (k as f32 + 1.0)).abs() < 1e-5,
        "expected spl0 == {}, got {}",
        k + 1,
        spl[0]
    );
}

#[test]
fn precedence_eval() {
    let spl = once("spl0 = 1+2*3;", [0.0, 0.0]);
    assert!((spl[0] - 7.0).abs() < 1e-5, "expected spl0 == 7, got {}", spl[0]);
}

#[test]
fn builtins_sqrt() {
    let spl = once("spl0 = sqrt(spl0);", [4.0, 0.0]);
    assert!((spl[0] - 2.0).abs() < 1e-5, "sqrt(4) = {}", spl[0]);
}

#[test]
fn builtins_sin() {
    let spl = once("spl0 = sin(spl0);", [std::f32::consts::FRAC_PI_2, 0.0]);
    assert!((spl[0] - 1.0).abs() < 1e-5, "sin(pi/2) = {}", spl[0]);
}

#[test]
fn builtins_abs() {
    let spl = once("spl0 = abs(spl0);", [-3.5, 0.0]);
    assert!((spl[0] - 3.5).abs() < 1e-5, "abs(-3.5) = {}", spl[0]);
}

#[test]
fn builtins_min_max() {
    let spl = once("spl0 = min(spl0, spl1);", [3.0, 5.0]);
    assert!((spl[0] - 3.0).abs() < 1e-5, "min(3,5)={}", spl[0]);
    let spl = once("spl0 = max(spl0, spl1);", [3.0, 5.0]);
    assert!((spl[0] - 5.0).abs() < 1e-5, "max(3,5)={}", spl[0]);
}

#[test]
fn builtins_atan2() {
    let spl = once("spl0 = atan2(spl0, spl1);", [1.0, 1.0]);
    let expected = std::f32::consts::FRAC_PI_4;
    assert!((spl[0] - expected).abs() < 1e-5, "atan2(1,1)={}, expected {}", spl[0], expected);
}

#[test]
fn builtins_tanh() {
    let spl = once("spl0 = tanh(spl0);", [1.0, 0.0]);
    let expected = 1.0f32.tanh();
    assert!((spl[0] - expected).abs() < 1e-5, "tanh(1)={}, expected {}", spl[0], expected);
}

#[test]
fn runaway_loop_budget_terminates() {
    let prog = compile("@sample while(1) ( n=n+1; );").expect("compile");
    let mut regs = make_regs(&prog);
    let mut spl = [0.0f32; 2];
    let mut budget = 500u32;
    run_sample(&prog, &mut regs, &mut spl, &mut budget);
    assert_eq!(budget, 0, "budget must be exhausted by while(1)");
    assert!(spl[0].is_finite(), "spl0 must be finite after runaway loop");
    assert!(spl[1].is_finite(), "spl1 must be finite after runaway loop");
}

#[test]
fn nan_guard_div_zero() {
    let spl = once("spl0 = spl0 / spl1;", [0.0, 0.0]);
    assert!(spl[0].is_finite(), "0/0 must produce finite output, got {}", spl[0]);
    assert_eq!(spl[0], 0.0, "0/0 should be guarded to 0.0");
}

#[test]
fn nan_guard_sqrt_negative() {
    let spl = once("spl0 = sqrt(0 - 1);", [0.0, 0.0]);
    assert!(spl[0].is_finite(), "sqrt(-1) must be finite, got {}", spl[0]);
    assert_eq!(spl[0], 0.0, "sqrt(-1) should be guarded to 0.0");
}

#[test]
fn loop_counted() {
    let prog = compile("@init s=0; @sample s=0; loop(5) ( s=s+1; ); spl0=s;").expect("compile");
    let mut regs = make_regs(&prog);
    run_init(&prog, &mut regs, 10_000);
    let mut spl = [0.0f32; 2];
    let mut budget = 10_000u32;
    run_sample(&prog, &mut regs, &mut spl, &mut budget);
    assert!((spl[0] - 5.0).abs() < 1e-5, "loop(5) should yield s==5, got {}", spl[0]);
}

#[test]
fn eq_epsilon_eel2_exact_match() {
    let spl = once("spl0 = if(1000==1000, 1, 0);", [0.0, 0.0]);
    assert!((spl[0] - 1.0).abs() < 1e-5, "1000==1000 should be true (1), got {}", spl[0]);
}

#[test]
fn eq_epsilon_eel2_near_miss() {
    let spl = once("spl0 = if(1000==1000.5, 1, 0);", [0.0, 0.0]);
    assert!(spl[0].abs() < 1e-5, "1000==1000.5 should be false (0), got {}", spl[0]);
}

/// A stage with the program that is published to it.
struct ScriptStage {
    stage: ScriptProcessor,
    program: Option<Program>,
    changed: bool,
}

impl ScriptStage {
    fn new(enabled: bool) -> ScriptStage {
        let mut stage = ScriptProcessor::new(48_000.0f32.to_bits());
        stage.set_params(enabled);
        ScriptStage { stage, program: None, changed: false }
    }

    fn publish(&mut self, prog: Program) {
        self.program = Some(prog);
        self.changed = true;
    }

    fn process(&mut self, buffer: &mut [f32], channels: usize) {
        let mut bits: Vec<u32> = buffer.iter().map(|x| x.to_bits()).collect();
        let prog = self.program.as_ref();
        let init = |w, a, b| answer(&prog.unwrap().init, w, a, b);
        let sample = |w, a, b| answer(&prog.unwrap().sample, w, a, b);
        self.stage.process(prog, self.changed, &mut bits, channels, &init, &sample);
        self.changed = false;
        for (x, b) in buffer.iter_mut().zip(bits) {
            *x = f32::from_bits(b);
        }
    }
}

#[test]
fn script_stage_disabled_is_identity() {
    let mut stage = ScriptStage::new(false);
    let original: Vec<f32> = (0..16).map(|i| i as f32 * 0.1 - 0.75).collect();
    let mut buf = original.clone();
    stage.process(&mut buf, 2);
    assert_eq!(buf, original, "a disabled stage must not alter the buffer");
}

#[test]
fn no_program_is_identity() {
    let mut stage = ScriptStage::new(true);
    let original: Vec<f32> = (0..16).map(|i| (i as f32 * 0.05).sin()).collect();
    let mut buf = original.clone();
    stage.process(&mut buf, 2);
    assert_eq!(buf, original, "a stage without a program must be identity");
}

#[test]
fn gain_program_halves() {
    let mut stage = ScriptStage::new(true);
    stage.publish(compile("spl0=spl0*0.5; spl1=spl1*0.5;").expect("compile gain program"));
    let mut buf = vec![1.0f32, 0.8, 0.6, -0.4, -0.2, 0.3, 0.9, -0.7];
    let expected: Vec<f32> = buf.iter().map(|&x| x * 0.5).collect();
    stage.process(&mut buf, 2);
    for (i, (&got, &want)) in buf.iter().zip(expected.iter()).enumerate() {
        assert!((got - want).abs() < 1e-5, "sample[{}]: got {}, expected {}", i, got, want);
    }
}

#[test]
fn script_stage_stays_bounded() {
    let mut stage = ScriptStage::new(true);
    stage.publish(
        compile("spl0=spl0*100000.0; spl1=spl1*100000.0;").expect("compile loud program"),
    );
    let mut buf: Vec<f32> = (0..32).map(|i| if i % 2 == 0 { 0.9f32 } else { -0.9f32 }).collect();
    stage.process(&mut buf, 2);
    for &s in &buf {
        assert!(s.abs() <= 4.0, "output must be clamped to 4.0, got {}", s);
    }
}

#[test]
fn program_change_detected() {
    let mut stage = ScriptStage::new(true);
    stage.publish(compile("spl0=spl0*2.0; spl1=spl1*2.0;").expect("compile prog1"));
    let mut buf = vec![0.5f32, -0.5f32];
    stage.process(&mut buf, 2);
    assert!((buf[0] - 1.0).abs() < 1e-5, "prog1 l: got {}", buf[0]);
    assert!((buf[1] - (-1.0)).abs() < 1e-5, "prog1 r: got {}", buf[1]);

    stage.publish(compile("spl0=spl0*0.25; spl1=spl1*0.25;").expect("compile prog2"));
    let mut buf2 = vec![0.8f32, -0.8f32];
    stage.process(&mut buf2, 2);
    assert!((buf2[0] - 0.2).abs() < 1e-5, "prog2 l: got {}", buf2[0]);
    assert!((buf2[1] - (-0.2)).abs() < 1e-5, "prog2 r: got {}", buf2[1]);
}

fn examples() -> Vec<(&'static str, &'static str)> {
    vec![
        ("Gain", "@sample\n  spl0 = spl0 * 0.7;\n  spl1 = spl1 * 0.7;\n"),
        (
            "Tremolo",
            "@init\n  t = 0;\n@sample\n  t = t + 1;\n  \
             g = 0.5 + 0.5 * sin(t * 2 * $pi * 4 / srate);\n  \
             spl0 = spl0 * g;\n  spl1 = spl1 * g;\n",
        ),
        (
            "Soft clip",
            "@sample\n  spl0 = tanh(spl0 * 2) / tanh(2);\n  \
             spl1 = tanh(spl1 * 2) / tanh(2);\n",
        ),
    ]
}

#[test]
fn every_shipped_example_compiles() {
    for (label, source) in examples() {
        if let Err(e) = compile(source) {
            panic!("the \"{label}\" example does not compile: {}", e.describe(""));
        }
    }
}

#[test]
fn every_shipped_example_actually_processes_audio() {
    for (label, source) in examples() {
        let program = compile(source).unwrap();
        assert!(!program.sample.is_empty(), "the \"{label}\" example emits no @sample ops");
    }
}

#[test]
fn a_spent_budget_leaves_the_frame_alone() {
    let prog = compile("spl0 = 3; while(1) ( n=n+1; );").expect("compile");
    let mut regs = make_regs(&prog);
    let mut spl = [0.25f32, -0.5];
    let mut budget = 100u32;
    run_sample(&prog, &mut regs, &mut spl, &mut budget);
    assert_eq!(budget, 0);
    assert_eq!(spl, [0.25, -0.5]);
    let before = regs.clone();
    let mut odd = [f32::INFINITY, 9.0];
    run_sample(&prog, &mut regs, &mut odd, &mut budget);
    assert_eq!(odd, [f32::INFINITY, 9.0]);
    assert_eq!(regs, before);
    let mut stage = ScriptStage::new(true);
    stage.publish(compile("n = 0; while(n < 300000) ( n = n + 1; ); spl0 = 0.5;").expect("compile"));
    let mut buf = vec![9.0f32, 9.0, 9.0, 9.0];
    stage.process(&mut buf, 2);
    assert_eq!(buf, vec![4.0, 4.0, 9.0, 9.0]);
}

#[test]
fn machines_answer_step_by_step_too() {
    let prog = compile("spl0 = 2 * spl0;").expect("compile");
    let mut regs = make_regs(&prog);
    load_frame(&prog, &mut regs, 3.0f32.to_bits(), 0);
    let mut m = Machine::new(100);
    let end = loop {
        match m.advance(&prog.sample, &mut regs) {
            Step::Done(end) => break end,
            Step::Ask(what, a, b) => {
                let v = answer(&prog.sample, what, a, b);
                m.resume(&prog.sample, v);
            }
        }
    };
    assert_eq!((end, m.budget()), (End::Finished, 96));
    assert_eq!(f32::from_bits(read_frame(&prog, &regs, end, 0, 0).0), 6.0);
}

#[test]
fn a_stage_tells_its_program_the_sample_rate() {
    let mut stage = ScriptStage::new(true);
    stage.publish(compile("@init base = srate; @sample spl0 = srate / base;").expect("compile"));
    let mut buf = vec![0.0f32, 0.0];
    stage.process(&mut buf, 2);
    assert_eq!(buf[0], 1.0);
    stage.stage.prepare(96_000.0f32.to_bits());
    stage.process(&mut buf, 2);
    assert_eq!(buf[0], 2.0);
}

fn nested(depth: usize) -> String {
    let mut src = String::from("spl0 = ");
    for _ in 0..depth {
        src.push_str("1 + (");
    }
    src.push('1');
    for _ in 0..depth {
        src.push(')');
    }
    src.push(';');
    src
}

#[test]
fn shallow_scripts_lose_no_value() {
    let spl = once(&nested(255), [0.0, 0.0]);
    assert_eq!(spl[0], 256.0);
    let spl = once(&nested(300), [0.0, 0.0]);
    assert_ne!(spl[0], 301.0);
}

#[test]
fn places_rise() {
    let places: Vec<(u32, u32)> =
        lex("a = 1;\n  b += $pi;").unwrap().iter().map(|t| (t.line, t.col)).collect();
    assert_eq!(places, vec![(1, 1), (1, 3), (1, 5), (1, 6), (2, 3), (2, 5), (2, 8), (2, 11)]);
}

#[test]
fn comparisons_and_logic_give_one_or_zero() {
    assert_eq!(once("spl0 = (1 < 2) + (2 <= 2) + (3 > 4) + (4 >= 5);", [0.0, 0.0])[0], 2.0);
    assert_eq!(once("spl0 = (1 && 0) + (1 || 0) + !1 + !0;", [0.0, 0.0])[0], 2.0);
    assert_eq!(once("spl0 = (1 == 1.000001) + (1 != 2);", [0.0, 0.0])[0], 2.0);
    assert_eq!(once("spl0 = sign(0-7) * 10 + sign(3);", [0.0, 0.0])[0], -9.0);
    assert_eq!(once("spl0 = 7 % 4 + fmod(9, 5);", [0.0, 0.0])[0], 7.0);
    assert_eq!(once("spl0 = -2 ^ 2;", [0.0, 0.0])[0], -4.0);
}

#[test]
fn samples_are_flushed_and_cut() {
    assert_eq!(bound_sample(1e-19f32.to_bits()), 0);
    assert_eq!(f32::from_bits(bound_sample(9.0f32.to_bits())), 4.0);
    assert_eq!(f32::from_bits(bound_sample((-9.0f32).to_bits())), -4.0);
    assert_eq!(f32::from_bits(bound_sample(0.5f32.to_bits())), 0.5);
}

#[test]
fn errors_name_their_place() {
    let err = compile("spl0 = $tau;").unwrap_err();
    assert_eq!(err.line, 1);
    assert!(err.describe("").starts_with("[1:"), "got {}", err.describe(""));
    let err = compile("(1 2);").unwrap_err();
    assert_eq!(err.message.number, Some("2".to_string()));
    assert_eq!(err.describe("2.0"), "[1:4] expected RParen, found Num(2.0)");
}

#[test]
fn a_script_that_fits_is_compiled_either_way() {
    let a = compile("spl0 = spl0 + 1;").unwrap();
    let b = try_compile("spl0 = spl0 + 1;").unwrap().unwrap();
    assert_eq!(a.sample, b.sample);
    assert_eq!(a.num_regs, 3);
    assert_eq!(Builtin::from_name("atan2"), Some((Builtin::Atan2, 2)));
    assert_eq!(Builtin::from_name("nosuch"), None);
}

fn placed(src: &str) -> Vec<(Token, u32, u32)> {
    lex(src).unwrap().into_iter().map(|t| (t.node, t.line, t.col)).collect()
}

#[test]
fn a_line_break_parts_the_tokens_of_two_texts() {
    let (a, b) = ("x = 1e3; // one\n\ny <", "= 2.5\n  @sample");
    let mut both = placed(a);
    both.extend(placed(b).into_iter().map(|(t, line, col)| (t, line + 3, col)));
    assert_eq!(placed(&format!("{a}\n{b}")), both);
    // Without the line break the last and the first character make one operator.
    assert_ne!(placed(&format!("{a}{b}")).len(), both.len());
    let wrong = lex("a\nb ?").unwrap_err();
    let below = lex("1\n2\na\nb ?").unwrap_err();
    assert_eq!((wrong.line + 2, wrong.col), (below.line, below.col));
}

#[test]
fn a_script_starts_in_its_sample_section() {
    for src in ["a = 1; b = a + 2", "a = 1; @init b = 2; @sample c", "", "@block x"] {
        let plain = lex(src).unwrap();
        let marked = lex(&format!("@sample {src}")).unwrap();
        assert_eq!(parse(&plain).unwrap(), parse(&marked).unwrap(), "{src}");
    }
    let plain = lex("\na = ").unwrap();
    let marked = lex("@sample\na = ").unwrap();
    let error = |e: ScriptError| format!("{e:?}");
    assert_eq!(error(parse(&plain).unwrap_err()), error(parse(&marked).unwrap_err()));
}

#[test]
fn names_have_registers_of_their_own() {
    let program = compile("a = 1; b = 2; a = spl0; spl1 = b; c = srate;").unwrap();
    let stored: Vec<u16> = program
        .sample
        .iter()
        .filter_map(|op| match op {
            Op::StoreReg(r) => Some(*r),
            _ => None,
        })
        .collect();
    assert_eq!(stored, [3, 4, 3, 1, 5]);
    let loaded: Vec<u16> = program
        .sample
        .iter()
        .filter_map(|op| match op {
            Op::LoadReg(r) => Some(*r),
            _ => None,
        })
        .collect();
    assert!([0, 4, 2].iter().all(|r| loaded.contains(r)), "{loaded:?}");
    assert_eq!(program.num_regs, 6);
}
