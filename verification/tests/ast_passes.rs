use omni_compiler::effect_resolver::EffectResolver;
use omni_compiler::ast::{Expr, Program, Stmt, Visibility};
use omni_compiler::control_flow::{block_definitely_returns, is_executable_top_level, stmt_definitely_returns};
use omni_compiler::diagnostics::Span;
use omni_compiler::doc_gen::generate_docs;

fn sp() -> Span {
    Span::new(1, 1, 1, 2)
}

fn ret(n: i64) -> Stmt {
    Stmt::Return(Expr::Number(n, sp()), sp())
}

fn print() -> Stmt {
    Stmt::Print(Expr::StringLit("x".to_string(), sp()), sp())
}

fn func(name: &str, params: Vec<(String, Option<String>)>, ret_type: Option<&str>, effects: Vec<&str>, body: Vec<Stmt>) -> Stmt {
    Stmt::Fn {
        name: name.to_string(),
        visibility: Visibility::Private,
        is_async: false,
        type_params: vec![],
        params,
        ret_type: ret_type.map(|s| s.to_string()),
        effects: effects.into_iter().map(|s| s.to_string()).collect(),
        contracts: vec![],
        body,
        span: sp(),
    }
}

fn doc(target: &str, content: &str) -> Stmt {
    Stmt::DocComment { target: target.to_string(), content: content.to_string(), span: sp() }
}

fn strukt(name: &str, is_linear: bool) -> Stmt {
    Stmt::Struct { name: name.to_string(), visibility: Visibility::Pub, fields: vec![], is_linear, span: sp() }
}

#[test]
fn docs_are_gathered_by_name() {
    let ast = vec![
        doc("add", "  Adds two numbers. "),
        doc("add", "Second line"),
        func("add", vec![("a".to_string(), Some("int".to_string())), ("b".to_string(), None)], Some("int"), vec!["io"], vec![]),
        strukt("P", true),
        doc("Q", ""),
        doc("Q", "x"),
        strukt("Q", false),
        print(),
    ];
    let items = generate_docs(&ast);
    assert_eq!(items.len(), 3);
    assert_eq!(items[0].name, "add");
    assert_eq!(items[0].kind, "Function");
    assert_eq!(items[0].docs, "Adds two numbers.\nSecond line");
    assert_eq!(items[0].signature, "fn add(a: int, b) -> int");
    assert_eq!(items[0].effects, vec!["io".to_string()]);
    assert_eq!(items[1].kind, "Linear Struct");
    assert_eq!(items[1].docs, "");
    assert_eq!(items[1].signature, "struct P");
    assert_eq!(items[2].kind, "Struct");
    assert_eq!(items[2].docs, "x");
}

#[test]
fn returns_on_every_path() {
    assert!(stmt_definitely_returns(&ret(1)));
    assert!(stmt_definitely_returns(&Stmt::Block(vec![print(), ret(1)], sp())));
    let if_no_else = Stmt::If {
        cond: Box::new(Expr::Bool(true, sp())),
        bindings: vec![],
        then_body: vec![ret(1)],
        else_body: vec![],
        span: sp(),
    };
    assert!(!stmt_definitely_returns(&if_no_else));
    let if_both = Stmt::If {
        cond: Box::new(Expr::Bool(true, sp())),
        bindings: vec![],
        then_body: vec![ret(1)],
        else_body: vec![ret(2)],
        span: sp(),
    };
    assert!(stmt_definitely_returns(&if_both));
    assert!(stmt_definitely_returns(&Stmt::Loop { body: vec![ret(1)], span: sp() }));
    let while_loop = Stmt::While { cond: Box::new(Expr::Bool(true, sp())), body: vec![ret(1)], span: sp() };
    assert!(!stmt_definitely_returns(&while_loop));
    assert!(block_definitely_returns(&vec![print(), if_both], false));
    assert!(!block_definitely_returns(&vec![print()], true));
}

#[test]
fn top_level_statements_that_run() {
    assert!(is_executable_top_level(&print()));
    assert!(is_executable_top_level(&ret(0)));
    assert!(!is_executable_top_level(&func("main", vec![], None, vec![], vec![])));
    assert!(!is_executable_top_level(&doc("a", "b")));
}

#[test]
fn expressions_know_their_span() {
    let e = Expr::Number(5, Span::new(3, 4, 3, 5));
    let s = e.span();
    assert_eq!((s.start_line, s.start_col, s.end_line, s.end_col), (3, 4, 3, 5));
    let program = Program::new();
    assert!(program.stmts.is_empty());
}

fn call(name: &str, args: Vec<Expr>) -> Expr {
    Expr::Call(name.to_string(), args, sp())
}

#[test]
fn call_graph_lists_calls_in_order() {
    let body = vec![
        Stmt::Let("x".to_string(), None, call("helper", vec![Expr::Number(1, sp()), call("other", vec![])]), sp()),
        Stmt::If {
            cond: Box::new(call("ignored_cond", vec![])),
            bindings: vec![],
            then_body: vec![Stmt::ExprStmt(call("in_then", vec![]), sp())],
            else_body: vec![Stmt::Return(Expr::Block(vec![Stmt::Print(call("in_block", vec![]), sp())], sp()), sp())],
            span: sp(),
        },
    ];
    let mut program = Program::new();
    program.stmts.push(func("main", vec![], None, vec!["io", "io", "net"], body));
    program.stmts.push(func("helper", vec![], None, vec![], vec![]));
    let mut resolver = EffectResolver::new();
    resolver.build_call_graph(&program);
    resolver.collect_initial_effects(&program);
    let calls = resolver.call_graph.get("main").unwrap();
    assert_eq!(calls, &vec!["helper".to_string(), "other".to_string(), "in_then".to_string(), "in_block".to_string()]);
    assert!(resolver.call_graph.get("helper").unwrap().is_empty());
    assert_eq!(resolver.function_effects.get("main").unwrap().to_string_list(), "io, net");
    assert_eq!(resolver.function_effects.get("helper").unwrap().to_string_list(), "");
}
