use omni_compiler::ast::{Expr, MatchArm, Pattern, Program, Stmt, Visibility};
use omni_compiler::complete_lexer::TokenKind;
use omni_compiler::comptime::{eval_comptime, is_comptime_known, ComptimeContext, ComptimeError, ComptimeValue};
use omni_compiler::diagnostics::Span;

fn sp() -> Span {
    Span::new(1, 1, 1, 2)
}

fn num(n: i64) -> Expr {
    Expr::Number(n, sp())
}

fn var(name: &str) -> Expr {
    Expr::Var(name.to_string(), sp())
}

fn bin(op: TokenKind, l: Expr, r: Expr) -> Expr {
    Expr::BinaryOp { op, left: Box::new(l), right: Box::new(r), span: sp() }
}

fn call(name: &str, args: Vec<Expr>) -> Expr {
    Expr::Call(name.to_string(), args, sp())
}

fn let_(name: &str, e: Expr) -> Stmt {
    Stmt::Let(name.to_string(), None, e, sp())
}

fn expr_stmt(e: Expr) -> Stmt {
    Stmt::ExprStmt(e, sp())
}

fn func(name: &str, params: &[&str], body: Vec<Stmt>) -> Stmt {
    Stmt::Fn {
        name: name.to_string(),
        visibility: Visibility::Private,
        is_async: false,
        type_params: vec![],
        params: params.iter().map(|p| (p.to_string(), None)).collect(),
        ret_type: None,
        effects: vec![],
        contracts: vec![],
        body,
        span: sp(),
    }
}

fn int_of(r: Result<ComptimeValue, ComptimeError>) -> i64 {
    match r {
        Ok(ComptimeValue::Int(n)) => n,
        other => panic!("expected an integer, got {:?}", other),
    }
}

#[test]
fn arithmetic_follows_operator_nesting() {
    let e = bin(TokenKind::Plus, num(1), bin(TokenKind::Star, num(2), num(3)));
    assert_eq!(int_of(eval_comptime(&e)), 7);
    assert!(matches!(eval_comptime(&bin(TokenKind::Lt, num(1), num(2))), Ok(ComptimeValue::Bool(true))));
}

#[test]
fn builtin_calls_are_checked() {
    assert_eq!(int_of(eval_comptime(&call("add", vec![num(2), num(3)]))), 5);
    assert_eq!(int_of(eval_comptime(&call("%", vec![num(7), num(4)]))), 3);
    assert!(matches!(eval_comptime(&call("add", vec![num(i64::MAX), num(1)])), Err(ComptimeError::ArithmeticOverflow("add"))));
    assert!(matches!(eval_comptime(&call("div", vec![num(1), num(0)])), Err(ComptimeError::DivisionByZero)));
    match eval_comptime(&call("add", vec![num(1)])) {
        Err(ComptimeError::Arity { name, expected, actual }) => {
            assert_eq!(name, "add");
            assert_eq!((expected, actual), (2, 1));
        },
        other => panic!("unexpected {:?}", other),
    }
    match eval_comptime(&call("nope", vec![])) {
        Err(ComptimeError::UndefinedVariable(m)) => assert_eq!(m, "function 'nope'"),
        other => panic!("unexpected {:?}", other),
    }
}

#[test]
fn strings_concatenate_and_measure() {
    let s = |t: &str| Expr::StringLit(t.to_string(), sp());
    match eval_comptime(&bin(TokenKind::Plus, s("ab"), s("c"))) {
        Ok(ComptimeValue::String(t)) => assert_eq!(t, "abc"),
        other => panic!("unexpected {:?}", other),
    }
    match eval_comptime(&bin(TokenKind::Slash, s("a"), s("b"))) {
        Ok(ComptimeValue::String(t)) => assert_eq!(t, "ab"),
        other => panic!("unexpected {:?}", other),
    }
    let len = Expr::FieldAccess { base: Box::new(s("héllo")), field: "len".to_string(), span: sp() };
    assert_eq!(int_of(eval_comptime(&len)), 5);
}

#[test]
fn declared_functions_are_called_in_their_own_scope() {
    let prog = Program {
        stmts: vec![
            func("sq", &["x"], vec![expr_stmt(bin(TokenKind::Star, var("x"), var("x")))]),
            expr_stmt(call("sq", vec![num(7)])),
        ],
    };
    let mut ctx = ComptimeContext::new();
    assert_eq!(int_of(ctx.eval_program(&prog)), 49);
    assert!(ctx.variables.get("x").is_none());
}

#[test]
fn unbounded_recursion_hits_the_recursion_limit() {
    let prog = Program {
        stmts: vec![func("f", &["n"], vec![expr_stmt(call("f", vec![var("n")]))]), expr_stmt(call("f", vec![num(1)]))],
    };
    let mut ctx = ComptimeContext::new();
    assert!(matches!(ctx.eval_program(&prog), Err(ComptimeError::RecursionLimit)));
}

#[test]
fn while_and_for_loops_rebind_variables() {
    let w = Stmt::While {
        cond: Box::new(bin(TokenKind::Lt, var("i"), num(5))),
        body: vec![let_("i", bin(TokenKind::Plus, var("i"), num(1)))],
        span: sp(),
    };
    let prog = Program { stmts: vec![let_("i", num(0)), w, expr_stmt(var("i"))] };
    let mut ctx = ComptimeContext::new();
    assert_eq!(int_of(ctx.eval_program(&prog)), 5);

    let f = Stmt::For {
        var_name: "x".to_string(),
        iterable: Box::new(Expr::Tuple(vec![num(1), num(2), num(3)], sp())),
        body: vec![let_("s", bin(TokenKind::Plus, var("s"), var("x")))],
        span: sp(),
    };
    let prog2 = Program { stmts: vec![let_("s", num(0)), f, expr_stmt(var("s"))] };
    let mut ctx2 = ComptimeContext::new();
    assert_eq!(int_of(ctx2.eval_program(&prog2)), 6);
}

#[test]
fn endless_loops_run_out_of_operations() {
    let w = Stmt::While { cond: Box::new(Expr::Bool(true, sp())), body: vec![], span: sp() };
    let prog = Program { stmts: vec![w] };
    let mut ctx = ComptimeContext::new();
    assert!(matches!(ctx.eval_program(&prog), Err(ComptimeError::OperationLimit)));
    assert_eq!(ctx.operations_used(), 100001);
    let l = Stmt::Loop { body: vec![], span: sp() };
    let mut ctx2 = ComptimeContext::new();
    match ctx2.eval_stmt(&l) {
        Err(ComptimeError::Unsupported(m)) => {
            assert_eq!(m, "unbounded comptime loop; use a bounded while/for form until loop control is qualified")
        },
        other => panic!("unexpected {:?}", other),
    }
}

#[test]
fn match_takes_the_first_arm_whose_guard_holds() {
    let e = Expr::Match {
        expr: Box::new(num(2)),
        arms: vec![
            MatchArm { pattern: Pattern::Literal(1), guard: None, body: Box::new(num(10)), span: sp() },
            MatchArm {
                pattern: Pattern::Var("x".to_string()),
                guard: Some(Box::new(bin(TokenKind::Gt, var("x"), num(5)))),
                body: Box::new(num(20)),
                span: sp(),
            },
            MatchArm {
                pattern: Pattern::Var("x".to_string()),
                guard: Some(Box::new(bin(TokenKind::Gt, var("x"), num(1)))),
                body: Box::new(bin(TokenKind::Star, var("x"), num(100))),
                span: sp(),
            },
            MatchArm { pattern: Pattern::Wildcard, guard: None, body: Box::new(num(0)), span: sp() },
        ],
        span: sp(),
    };
    assert_eq!(int_of(eval_comptime(&e)), 200);
    let none = Expr::Match {
        expr: Box::new(num(3)),
        arms: vec![MatchArm { pattern: Pattern::Literal(1), guard: None, body: Box::new(num(10)), span: sp() }],
        span: sp(),
    };
    match eval_comptime(&none) {
        Err(ComptimeError::InvalidOperation(m)) => assert_eq!(m, "non-exhaustive match expression"),
        other => panic!("unexpected {:?}", other),
    }
}

#[test]
fn struct_values_compare_as_maps_and_expose_fields() {
    let mut ctx = ComptimeContext::new();
    ctx.variables.insert(
        "a".to_string(),
        ComptimeValue::Struct("P".to_string(), vec![("x".to_string(), ComptimeValue::Int(1)), ("y".to_string(), ComptimeValue::Int(2))]),
    );
    ctx.variables.insert(
        "b".to_string(),
        ComptimeValue::Struct("P".to_string(), vec![("y".to_string(), ComptimeValue::Int(2)), ("x".to_string(), ComptimeValue::Int(1))]),
    );
    let eq = bin(TokenKind::EqEq, var("a"), var("b"));
    assert!(matches!(ctx.eval_expr(&eq), Ok(ComptimeValue::Bool(true))));
    let fx = Expr::FieldAccess { base: Box::new(var("b")), field: "x".to_string(), span: sp() };
    assert_eq!(int_of(ctx.eval_expr(&fx)), 1);
    let fz = Expr::FieldAccess { base: Box::new(var("b")), field: "z".to_string(), span: sp() };
    match ctx.eval_expr(&fz) {
        Err(ComptimeError::InvalidOperation(m)) => assert_eq!(m, "unknown field z"),
        other => panic!("unexpected {:?}", other),
    }
}

#[test]
fn print_records_the_debug_rendering() {
    let prog = Program { stmts: vec![Stmt::Print(num(5), sp())] };
    let mut ctx = ComptimeContext::new();
    assert!(matches!(ctx.eval_program(&prog), Ok(ComptimeValue::Unit)));
    assert_eq!(ctx.printed, vec!["Int(5)".to_string()]);
}

#[test]
fn known_values_are_those_that_evaluate() {
    assert!(is_comptime_known(&num(1)));
    assert!(!is_comptime_known(&var("x")));
    assert!(!is_comptime_known(&Expr::Float(0, sp())));
    let four = num(4);
    let mut ctx = ComptimeContext::new();
    let _ = ctx.eval_expr(&four);
    assert_eq!(ctx.operations_used(), 1);
}
