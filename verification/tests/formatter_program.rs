use omni_compiler::ast::{EnumVariant, Expr, InterpolatedFragment, MatchArm, Pattern, Program, Stmt, Visibility};
use omni_compiler::complete_lexer::TokenKind;
use omni_compiler::diagnostics::Span;
use omni_compiler::formatter::{float_literals, format_program, format_program_with_config, FormatterConfig};

fn sp() -> Span {
    Span::new(1, 1, 1, 2)
}

fn num(n: i64) -> Expr {
    Expr::Number(n, sp())
}

fn var(name: &str) -> Expr {
    Expr::Var(name.to_string(), sp())
}

fn prog(stmts: Vec<Stmt>) -> Program {
    Program { stmts }
}

fn fmt(stmts: Vec<Stmt>) -> String {
    format_program(&prog(stmts), &vec![])
}

fn expr_line(e: Expr) -> String {
    fmt(vec![Stmt::ExprStmt(e, sp())])
}

#[test]
fn formats_let_with_binary_operator() {
    let e = Expr::BinaryOp { op: TokenKind::Plus, left: Box::new(num(1)), right: Box::new(num(2)), span: sp() };
    let out = fmt(vec![Stmt::Let("x".to_string(), Some("i64".to_string()), e, sp())]);
    assert_eq!(out, "let x: i64 = 1 + 2;\n");
}

#[test]
fn formats_function_header_and_body() {
    let cond = Expr::BinaryOp { op: TokenKind::Gt, left: Box::new(var("a")), right: Box::new(num(0)), span: sp() };
    let f = Stmt::Fn {
        name: "add".to_string(),
        visibility: Visibility::Pub,
        is_async: true,
        type_params: vec![("T".to_string(), vec!["Ord".to_string()])],
        params: vec![("a".to_string(), Some("i64".to_string())), ("b".to_string(), None)],
        ret_type: Some("i64".to_string()),
        effects: vec!["async".to_string(), "io".to_string()],
        contracts: vec![Stmt::ContractRequires { condition: cond, message: "pos".to_string(), span: sp() }],
        body: vec![Stmt::Return(var("a"), sp())],
        span: sp(),
    };
    assert_eq!(
        fmt(vec![f]),
        "pub async fn add[T: Ord](a: i64, b) -> i64 / io @requires(a > 0, \"pos\") {\n    return a;\n}\n"
    );
}

#[test]
fn float_literals_take_their_text_from_the_table() {
    let bits = 1.5f64.to_bits();
    let p = prog(vec![Stmt::Let("f".to_string(), None, Expr::Float(bits, sp()), sp())]);
    assert_eq!(float_literals(&p), vec![bits]);
    let table = vec![(bits, format!("{}", f64::from_bits(bits)))];
    assert_eq!(format_program(&p, &table), "let f = 1.5;\n");
    assert_eq!(format_program(&p, &vec![]), "let f = ;\n");
}

#[test]
fn reserved_words_are_escaped_as_raw_names() {
    assert_eq!(expr_line(var("fn")), "r#fn;\n");
    assert_eq!(expr_line(var("value")), "value;\n");
}

#[test]
fn literals_are_escaped() {
    assert_eq!(expr_line(Expr::StringLit("a\"b\n".to_string(), sp())), "\"a\\\"b\\n\";\n");
    assert_eq!(expr_line(Expr::ByteString(vec![0x41, 0x00, 0xff], sp())), "b\"A\\0\\xFF\";\n");
    assert_eq!(expr_line(Expr::Byte(b'\'', sp())), "b'\\'';\n");
    assert_eq!(expr_line(Expr::Byte(7, sp())), "b'\\x07';\n");
    assert_eq!(expr_line(Expr::Char('\n', sp())), "'\\n';\n");
    assert_eq!(expr_line(Expr::Bool(true, sp())), "true;\n");
    assert_eq!(expr_line(num(-42)), "-42;\n");
}

#[test]
fn interpolated_strings_escape_their_openers() {
    let e = Expr::Interpolated(
        vec![InterpolatedFragment::Literal("x ${".to_string(), sp()), InterpolatedFragment::Expr(Box::new(var("y")))],
        sp(),
    );
    assert_eq!(expr_line(e), "f\"x \\${${y}\";\n");
}

#[test]
fn match_arms_are_listed_one_per_line() {
    let e = Expr::Match {
        expr: Box::new(var("v")),
        arms: vec![
            MatchArm { pattern: Pattern::Literal(1), guard: Some(Box::new(var("ok"))), body: Box::new(num(2)), span: sp() },
            MatchArm { pattern: Pattern::Wildcard, guard: None, body: Box::new(num(3)), span: sp() },
        ],
        span: sp(),
    };
    assert_eq!(expr_line(e), "match v {\n  | 1 if ok => 2\n  | _ => 3\n}\n;\n");
}

#[test]
fn block_expressions_indent_their_statements_once() {
    let call = Expr::Call("f".to_string(), vec![num(1), var("x")], sp());
    let e = Expr::Block(vec![Stmt::ExprStmt(call, sp())], sp());
    assert_eq!(expr_line(e), "{     f(1, x);\n };\n");
}

#[test]
fn nested_blocks_indent_four_spaces_per_level() {
    let inner = Stmt::If {
        cond: Box::new(var("c")),
        bindings: vec![],
        then_body: vec![Stmt::Print(num(1), sp())],
        else_body: vec![],
        span: sp(),
    };
    let outer = Stmt::While { cond: Box::new(Expr::Bool(true, sp())), body: vec![inner, Stmt::Break(sp())], span: sp() };
    assert_eq!(
        fmt(vec![outer]),
        "while true {\n    if c {\n        print 1;\n    } else {\n    }\n    break;\n}\n"
    );
}

#[test]
fn declarations_list_their_members() {
    let e = Stmt::Enum {
        name: "E".to_string(),
        visibility: Visibility::Pub,
        variants: vec![
            EnumVariant { name: "V".to_string(), fields: vec![("x".to_string(), "i64".to_string())] },
            EnumVariant { name: "W".to_string(), fields: vec![] },
        ],
        is_sealed: true,
        span: sp(),
    };
    assert_eq!(fmt(vec![e]), "pub enum E sealed {\n    variant V [x: i64]\n    variant W\n}\n");
    let s = Stmt::Struct {
        name: "P".to_string(),
        visibility: Visibility::Private,
        fields: vec![("x".to_string(), "i64".to_string())],
        is_linear: true,
        span: sp(),
    };
    assert_eq!(fmt(vec![s]), "struct P linear {\n    x: i64\n}\n");
    let t = Stmt::Tensor { shape: vec![2, 3], dtype: "f32".to_string(), span: sp() };
    assert_eq!(fmt(vec![t]), "tensor[2x3] f32\n");
    let h = Stmt::EffectHandler { effect: "IO".to_string(), handler: Box::new(var("h")), span: sp() };
    assert_eq!(fmt(vec![h]), "handle IO in {\n    h\n}\n");
}

#[test]
fn strict_mode_puts_docs_then_sorted_imports_first() {
    let stmts = vec![
        Stmt::Let("x".to_string(), None, num(1), sp()),
        Stmt::Use { path: "b".to_string(), alias: None, span: sp() },
        Stmt::DocComment { target: "t".to_string(), content: "c".to_string(), span: sp() },
        Stmt::Use { path: "a".to_string(), alias: Some("z".to_string()), span: sp() },
    ];
    let p = prog(stmts);
    let strict = FormatterConfig::new().with_strict_mode(true);
    assert_eq!(
        format_program_with_config(&p, &strict, &vec![]),
        "doc t \"c\"\n\nuse a as z;\nuse b;\n\nlet x = 1;\n"
    );
    assert_eq!(
        format_program_with_config(&p, &FormatterConfig::new(), &vec![]),
        "let x = 1;\nuse b;\ndoc t \"c\"\nuse a as z;\n"
    );
}

#[test]
fn only_listed_literals_read_the_table() {
    let bits = 2.5f64.to_bits();
    let p = prog(vec![Stmt::Print(Expr::Float(bits, sp()), sp())]);
    let a = vec![(bits, "2.5".to_string())];
    let b = vec![(7u64, "unused".to_string()), (bits, "2.5".to_string())];
    assert_eq!(float_literals(&p), vec![bits]);
    assert_eq!(format_program(&p, &a), format_program(&p, &b));
    assert_eq!(format_program(&p, &a), "print 2.5;\n");
}
