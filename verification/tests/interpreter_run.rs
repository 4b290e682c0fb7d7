use omni_compiler::ast::{Expr, InterpolatedFragment, MatchArm, Pattern, Program, Stmt, Visibility};
use omni_compiler::complete_lexer::TokenKind;
use omni_compiler::diagnostics::Span;
use omni_compiler::interpreter::{checked_index, run_program, value_to_string, Value};

fn sp() -> Span {
    Span::new(1, 1, 1, 2)
}

fn num(n: i64) -> Expr {
    Expr::Number(n, sp())
}

fn text(s: &str) -> Expr {
    Expr::StringLit(s.to_string(), sp())
}

fn var(name: &str) -> Expr {
    Expr::Var(name.to_string(), sp())
}

fn bin(op: TokenKind, l: Expr, r: Expr) -> Expr {
    Expr::BinaryOp { op, left: Box::new(l), right: Box::new(r), span: sp() }
}

fn call(name: &str, args: Vec<Expr>) -> Expr {
    Expr::Call(name.to_string(), args, sp())
}

fn let_(name: &str, e: Expr) -> Stmt {
    Stmt::Let(name.to_string(), None, e, sp())
}

fn assign(name: &str, e: Expr) -> Stmt {
    Stmt::Assign(name.to_string(), e, sp())
}

fn print(e: Expr) -> Stmt {
    Stmt::Print(e, sp())
}

fn func(name: &str, params: &[&str], body: Vec<Stmt>) -> Stmt {
    Stmt::Fn {
        name: name.to_string(),
        visibility: Visibility::Private,
        is_async: false,
        type_params: vec![],
        params: params.iter().map(|p| (p.to_string(), None)).collect(),
        ret_type: None,
        effects: vec![],
        contracts: vec![],
        body,
        span: sp(),
    }
}

fn run(stmts: Vec<Stmt>) -> (Vec<String>, Result<(), String>) {
    run_program(&Program { stmts }, vec![], 100_000)
}

#[test]
fn prints_arithmetic_and_comparisons_as_integers() {
    let (out, r) = run(vec![
        print(bin(TokenKind::Plus, num(1), bin(TokenKind::Star, num(2), num(3)))),
        print(bin(TokenKind::Lt, num(1), num(2))),
        print(bin(TokenKind::EqEq, text("a"), text("b"))),
        print(bin(TokenKind::Plus, text("ab"), text("cd"))),
        print(num(-42)),
    ]);
    assert!(r.is_ok());
    assert_eq!(out, vec!["7", "1", "0", "abcd", "-42"]);
}

#[test]
fn integer_overflow_and_division_by_zero_are_errors() {
    let (_, r) = run(vec![print(bin(TokenKind::Plus, num(i64::MAX), num(1)))]);
    assert_eq!(r, Err("integer addition overflow".to_string()));
    let (_, r) = run(vec![print(bin(TokenKind::Slash, num(1), num(0)))]);
    assert_eq!(r, Err("integer division by zero or overflow".to_string()));
    let (_, r) = run(vec![print(bin(TokenKind::Plus, num(1), text("x")))]);
    assert_eq!(r, Err("Unsupported binary op types".to_string()));
}

#[test]
fn functions_see_caller_variables_and_return_values() {
    let (out, r) = run(vec![
        func("add", &["a", "b"], vec![Stmt::Return(bin(TokenKind::Plus, var("a"), bin(TokenKind::Plus, var("b"), var("base"))), sp())]),
        let_("base", num(100)),
        print(call("add", vec![num(1), num(2)])),
        print(call("add", vec![num(1)])),
    ]);
    assert_eq!(out, vec!["103"]);
    assert_eq!(r, Err("Expected 2 args for function add".to_string()));
    let (_, r) = run(vec![print(call("missing", vec![]))]);
    assert_eq!(r, Err("Undefined function: missing".to_string()));
    let (_, r) = run(vec![print(var("nope"))]);
    assert_eq!(r, Err("Undefined var nope".to_string()));
}

#[test]
fn while_loop_counts_and_break_stops_it() {
    let body = vec![
        assign("i", bin(TokenKind::Plus, var("i"), num(1))),
        Stmt::If {
            cond: Box::new(bin(TokenKind::EqEq, var("i"), num(3))),
            bindings: vec![],
            then_body: vec![Stmt::Break(sp())],
            else_body: vec![],
            span: sp(),
        },
        print(var("i")),
    ];
    let (out, r) = run(vec![
        let_("i", num(0)),
        Stmt::While { cond: Box::new(bin(TokenKind::Lt, var("i"), num(10))), body, span: sp() },
        print(var("i")),
    ]);
    assert!(r.is_ok());
    // the statements after `break` in the same body still run before the loop stops
    assert_eq!(out, vec!["1", "2", "3", "3"]);
}

#[test]
fn for_loops_over_integers_strings_and_vectors() {
    let (out, r) = run(vec![
        Stmt::For { var_name: "i".to_string(), iterable: Box::new(num(3)), body: vec![print(var("i"))], span: sp() },
        Stmt::For { var_name: "c".to_string(), iterable: Box::new(text("ab")), body: vec![print(var("c"))], span: sp() },
        Stmt::For {
            var_name: "v".to_string(),
            iterable: Box::new(Expr::Array(vec![num(7), text("x")], sp())),
            body: vec![print(var("v"))],
            span: sp(),
        },
        Stmt::For {
            var_name: "k".to_string(),
            iterable: Box::new(Expr::Range { start: Box::new(num(2)), end: Box::new(num(4)), inclusive: true, span: sp() }),
            body: vec![print(var("k"))],
            span: sp(),
        },
    ]);
    assert!(r.is_ok());
    assert_eq!(out, vec!["0", "1", "2", "a", "b", "7", "x", "2", "3", "4"]);
    let (_, r) = run(vec![Stmt::For { var_name: "b".to_string(), iterable: Box::new(Expr::Bool(true, sp())), body: vec![], span: sp() }]);
    assert_eq!(r, Err("For loop requires int, string, vector, or map iterable".to_string()));
}

#[test]
fn endless_loops_run_out_of_steps() {
    let (_, r) = run(vec![Stmt::Loop { body: vec![], span: sp() }]);
    assert_eq!(r, Err("step limit exceeded".to_string()));
}

#[test]
fn builtins_match_and_interpolation() {
    let arm = |p: Pattern, body: Expr| MatchArm { pattern: p, guard: None, body: Box::new(body), span: sp() };
    let m = Expr::Match {
        expr: Box::new(num(2)),
        arms: vec![arm(Pattern::Literal(1), text("one")), arm(Pattern::Var("n".to_string()), var("n"))],
        span: sp(),
    };
    let interp = Expr::Interpolated(
        vec![InterpolatedFragment::Literal("n=".to_string(), sp()), InterpolatedFragment::Expr(Box::new(num(5)))],
        sp(),
    );
    let (out, r) = run(vec![
        print(m),
        print(interp),
        print(call("string_concat", vec![text("a"), text("b")])),
        print(call("vector_len", vec![Expr::Tuple(vec![num(1), num(2)], sp())])),
        print(call("int_to_string", vec![num(-7)])),
        print(Expr::FieldAccess { base: Box::new(text("hello")), field: "len".to_string(), span: sp() }),
        print(Expr::StructLit { name: "P".to_string(), fields: vec![("x".to_string(), num(1))], span: sp() }),
        print(Expr::Tuple(vec![num(1)], sp())),
        print(call("panic", vec![text("boom")])),
    ]);
    assert_eq!(out, vec!["2", "n=5", "ab", "2", "-7", "5", "P { ... }", "<vector len=1>"]);
    assert_eq!(r, Err("panic: boom".to_string()));
}

#[test]
fn values_print_as_the_interpreter_writes_them() {
    assert_eq!(value_to_string(&vec![], &Value::Unit), "()");
    assert_eq!(value_to_string(&vec![], &Value::Bool(true)), "true");
    assert_eq!(value_to_string(&vec![], &Value::Byte(7)), "7");
    assert_eq!(value_to_string(&vec![(1.5f64.to_bits(), "1.5".to_string())], &Value::Float(1.5f64.to_bits())), "1.5");
    assert_eq!(checked_index(-1, "vector index"), Err("vector index: index/length must be non-negative and representable".to_string()));
    assert_eq!(checked_index(3, "x"), Ok(3));
}

#[test]
fn deferred_cleanups_run_after_the_block_last_first() {
    let defer = |s: Stmt| Stmt::Defer { cleanup: Box::new(s), span: sp() };
    let (out, r) = run(vec![
        Stmt::Block(
            vec![defer(print(text("first cleanup"))), defer(print(text("second cleanup"))), print(text("body"))],
            sp(),
        ),
        print(text("after")),
    ]);
    assert!(r.is_ok());
    assert_eq!(out, vec!["body", "second cleanup", "first cleanup", "after"]);
}

#[test]
fn string_builtins_trim_test_prefixes_and_append() {
    let (out, r) = run(vec![
        print(call("string_trim", vec![text("  hi  ")])),
        print(call("string_starts_with", vec![text("hello"), text("he")])),
        print(call("string_starts_with", vec![text("hello"), text("lo")])),
        print(call("string_push_char", vec![text("ab"), text("c")])),
        print(call("int_abs", vec![num(-3)])),
        print(call("vector_get", vec![Expr::Array(vec![num(4), num(5)], sp()), num(1)])),
        print(call("int_div", vec![num(7), num(0)])),
    ]);
    assert_eq!(out, vec!["hi", "true", "false", "abc", "3", "5"]);
    assert_eq!(r, Err("int_div: divide by zero or arithmetic overflow".to_string()));
}

#[test]
fn substrings_and_suffixes() {
    let (out, r) = run(vec![
        print(call("string_substr", vec![text("hello"), num(1), num(3)])),
        print(call("string_substr", vec![text("hello"), num(4), num(10)])),
        print(call("string_substr", vec![text("hello"), num(9), num(1)])),
        print(call("string_ends_with", vec![text("hello"), text("llo")])),
        print(call("string_ends_with", vec![text("hello"), text("he")])),
        print(call("string_substr", vec![text("hello"), num(-1), num(1)])),
    ]);
    assert_eq!(out, vec!["ell", "o", "", "true", "false"]);
    assert_eq!(r, Err("string_substr: index/length must be non-negative and representable".to_string()));
}

#[test]
fn lines_printed_before_an_error_are_kept() {
    let (out, r) = run(vec![print(num(1)), print(num(2)), print(var("missing")), print(num(3))]);
    assert_eq!(out, vec!["1", "2"]);
    assert_eq!(r, Err("Undefined var missing".to_string()));
}

fn expr_stmt(e: Expr) -> Stmt {
    Stmt::ExprStmt(e, sp())
}

#[test]
fn vectors_change_in_place_through_their_variable() {
    let (out, r) = run(vec![
        let_("v", call("vector_new", vec![])),
        print(call("vector_push", vec![var("v"), num(10)])),
        expr_stmt(call("vector_push", vec![var("v"), num(20)])),
        expr_stmt(call("vector_insert", vec![var("v"), num(0), num(5)])),
        print(call("vector_len", vec![var("v")])),
        print(call("vector_get", vec![var("v"), num(0)])),
        expr_stmt(call("vector_set", vec![var("v"), num(1), num(11)])),
        print(call("vector_get", vec![var("v"), num(1)])),
        print(call("vector_pop", vec![var("v")])),
        print(call("vector_remove", vec![var("v"), num(0)])),
        print(call("vector_len", vec![var("v")])),
        expr_stmt(call("vector_clear", vec![var("v")])),
        print(var("v")),
    ]);
    assert_eq!(r, Ok(()));
    assert_eq!(out, vec!["1", "3", "5", "11", "20", "5", "1", "<vector len=0>"]);
}

#[test]
fn vector_builtin_errors() {
    let (_, r) = run(vec![let_("v", call("vector_new", vec![])), expr_stmt(call("vector_pop", vec![var("v")]))]);
    assert_eq!(r, Err("vector_pop: empty vector".to_string()));
    let (_, r) = run(vec![let_("v", call("vector_new", vec![])), expr_stmt(call("vector_set", vec![var("v"), num(0), num(1)]))]);
    assert_eq!(r, Err("vector_set: index out of bounds".to_string()));
    let (_, r) = run(vec![let_("v", call("vector_new", vec![])), expr_stmt(call("vector_remove", vec![var("v"), num(-1)]))]);
    assert_eq!(r, Err("vector_remove: index/length must be non-negative and representable".to_string()));
    let (_, r) = run(vec![expr_stmt(call("vector_reserve", vec![call("vector_new", vec![]), num(4)]))]);
    assert_eq!(r, Err("vector_reserve requires a mutable named vector in the legacy interpreter".to_string()));
    let (out, r) = run(vec![
        let_("v", call("vector_new", vec![])),
        expr_stmt(call("vector_reserve", vec![var("v"), num(4)])),
        print(call("vector_len", vec![var("v")])),
    ]);
    assert_eq!(r, Ok(()));
    assert_eq!(out, vec!["0"]);
}

#[test]
fn maps_insert_get_remove_and_iterate_in_insertion_order() {
    let (out, r) = run(vec![
        let_("m", call("hashmap_new", vec![])),
        print(call("hashmap_insert", vec![var("m"), text("b"), num(2)])),
        print(call("hashmap_insert", vec![var("m"), text("a"), num(1)])),
        print(call("hashmap_insert", vec![var("m"), text("b"), num(3)])),
        print(call("hashmap_get", vec![var("m"), text("b")])),
        print(call("hashmap_contains", vec![var("m"), text("a")])),
        print(call("hashmap_len", vec![var("m")])),
        print(var("m")),
        Stmt::For { var_name: "k".to_string(), iterable: Box::new(var("m")), body: vec![print(var("k"))], span: sp() },
        print(Expr::FieldAccess { base: Box::new(var("m")), field: "a".to_string(), span: sp() }),
        print(call("hashmap_remove", vec![var("m"), text("b")])),
        expr_stmt(call("hashmap_clear", vec![var("m")])),
        print(call("hashmap_len", vec![var("m")])),
    ]);
    assert_eq!(r, Ok(()));
    assert_eq!(out, vec!["1", "2", "2", "3", "true", "2", "<map len=2>", "b", "a", "1", "1", "0"]);
    let (_, r) = run(vec![let_("m", call("hashmap_new", vec![])), print(call("hashmap_get", vec![var("m"), text("zz")]))]);
    assert_eq!(r, Err("hashmap_get: key 'zz' not found".to_string()));
    let (_, r) = run(vec![let_("m", call("hashmap_new", vec![])), print(Expr::FieldAccess { base: Box::new(var("m")), field: "q".to_string(), span: sp() })]);
    assert_eq!(r, Err("Unknown field 'q'".to_string()));
}

#[test]
fn sets_count_without_changing_their_variable() {
    let (out, r) = run(vec![
        let_("s", call("hashset_new", vec![])),
        print(call("hashset_insert", vec![var("s"), num(7)])),
        print(call("hashset_len", vec![var("s")])),
        print(call("hashset_contains", vec![var("s"), text("7")])),
        let_("a", call("hashset_new", vec![])),
        let_("b", call("hashset_new", vec![])),
        expr_stmt(call("hashmap_insert", vec![var("a"), text("x"), Expr::Bool(true, sp())])),
        expr_stmt(call("hashmap_insert", vec![var("a"), text("y"), Expr::Bool(true, sp())])),
        expr_stmt(call("hashmap_insert", vec![var("b"), text("y"), Expr::Bool(true, sp())])),
        expr_stmt(call("hashmap_insert", vec![var("b"), text("z"), Expr::Bool(true, sp())])),
        print(call("hashset_len", vec![call("hashset_union", vec![var("a"), var("b")])])),
        print(call("hashset_len", vec![call("hashset_intersect", vec![var("a"), var("b")])])),
        print(call("hashset_remove", vec![var("a"), text("x")])),
        print(call("hashset_len", vec![var("a")])),
    ]);
    assert_eq!(r, Ok(()));
    assert_eq!(out, vec!["1", "0", "false", "3", "1", "1", "2"]);
}

fn some_of(e: Expr) -> Vec<Stmt> {
    vec![let_("o", call("hashmap_new", vec![])), expr_stmt(call("hashmap_insert", vec![var("o"), text("value"), e]))]
}

#[test]
fn options_and_results_are_maps_with_value_or_err() {
    let mut stmts = some_of(num(4));
    stmts.push(let_("none", call("hashmap_new", vec![])));
    stmts.push(print(call("option_is_some", vec![var("o")])));
    stmts.push(print(call("option_is_some", vec![var("none")])));
    stmts.push(print(call("option_unwrap_or", vec![var("o"), num(0)])));
    stmts.push(print(call("option_unwrap_or", vec![var("none"), num(9)])));
    stmts.push(print(call("option_and", vec![var("none"), num(1)])));
    stmts.push(print(call("option_and", vec![var("o"), num(1)])));
    stmts.push(print(call("vector_len", vec![call("option_unwrap_or", vec![call("option_zip", vec![var("o"), var("o")]), num(0)])])));
    stmts.push(print(call("option_transpose", vec![var("none")])));
    stmts.push(let_("e", call("hashmap_new", vec![])));
    stmts.push(expr_stmt(call("hashmap_insert", vec![var("e"), text("err"), text("bad")])));
    stmts.push(print(call("result_is_ok", vec![var("e")])));
    stmts.push(print(call("hashmap_get", vec![call("option_unwrap_or", vec![call("result_transpose", vec![var("e")]), num(0)]), text("err")])));
    let (out, r) = run(stmts);
    assert_eq!(r, Ok(()));
    assert_eq!(out, vec!["true", "false", "4", "9", "<map len=0>", "1", "2", "<map len=1>", "false", "bad"]);
    let (_, r) = run(vec![print(call("option_is_some", vec![num(1)]))]);
    assert_eq!(r, Err("option_is_some requires an Option value (map)".to_string()));
}

#[test]
fn option_and_result_builtins_call_declared_functions() {
    let double = func("double", &["x"], vec![Stmt::Return(bin(TokenKind::Star, var("x"), num(2)), sp())]);
    let positive = func("positive", &["x"], vec![Stmt::Return(bin(TokenKind::Gt, var("x"), num(0)), sp())]);
    let fallback = func("fallback", &[], vec![Stmt::Return(num(42), sp())]);
    let mut stmts = vec![double, positive, fallback];
    stmts.extend(some_of(num(21)));
    stmts.push(let_("none", call("hashmap_new", vec![])));
    stmts.push(print(call("option_unwrap_or", vec![call("option_map", vec![var("o"), text("double")]), num(0)])));
    stmts.push(print(call("option_map", vec![var("none"), text("double")])));
    stmts.push(print(call("option_flat_map", vec![var("o"), text("double")])));
    stmts.push(print(call("option_or_else", vec![var("none"), text("fallback")])));
    stmts.push(print(call("option_is_some", vec![call("option_filter", vec![var("o"), text("positive")])])));
    stmts.push(let_("e", call("hashmap_new", vec![])));
    stmts.push(expr_stmt(call("hashmap_insert", vec![var("e"), text("err"), num(5)])));
    stmts.push(print(call("hashmap_get", vec![call("result_map_err", vec![var("e"), text("double")]), text("err")])));
    stmts.push(print(call("result_or_else", vec![var("e"), text("double")])));
    let (out, r) = run(stmts);
    assert_eq!(r, Ok(()));
    assert_eq!(out, vec!["42", "<map len=0>", "42", "42", "true", "10", "10"]);
    let mut stmts = some_of(num(1));
    stmts.push(print(call("option_map", vec![var("o"), text("nope")])));
    let (_, r) = run(stmts);
    assert_eq!(r, Err("option_map: function not found".to_string()));
    let mut stmts = vec![func("two", &["a", "b"], vec![])];
    stmts.extend(some_of(num(1)));
    stmts.push(print(call("option_map", vec![var("o"), text("two")])));
    let (_, r) = run(stmts);
    assert_eq!(r, Err("option_map: function two must take 1 arg".to_string()));
    let mut stmts = vec![func("id", &["x"], vec![Stmt::Return(num(3), sp())])];
    stmts.extend(some_of(num(1)));
    stmts.push(print(call("option_filter", vec![var("o"), text("id")])));
    let (_, r) = run(stmts);
    assert_eq!(r, Err("option_filter function must return bool".to_string()));
}

#[test]
fn string_and_integer_builtins() {
    let (out, r) = run(vec![
        print(call("str_len", vec![text("héllo")])),
        print(call("string_find", vec![text("héllo"), text("llo")])),
        print(call("string_find", vec![text("abc"), text("z")])),
        print(call("string_find", vec![text("abc"), text("")])),
        print(call("string_to_int", vec![text("-42")])),
        print(call("string_to_int", vec![text("+7")])),
        print(call("string_replace", vec![text("a-b-c"), text("-"), text("+")])),
        print(call("string_replace", vec![text("ab"), text(""), text("|")])),
        print(call("int_pow", vec![num(3), num(4)])),
        print(call("int_pow", vec![num(-2), num(63)])),
        print(call("int_pow", vec![num(-1), num(5)])),
        print(call("int_pow", vec![num(0), num(0)])),
    ]);
    assert_eq!(r, Ok(()));
    assert_eq!(out, vec!["6", "3", "-1", "0", "-42", "7", "a+b+c", "|a|b|", "81", "-9223372036854775808", "-1", "1"]);
    let (_, r) = run(vec![print(call("string_to_int", vec![text("9223372036854775808")]))]);
    assert_eq!(r, Err("string_to_int: invalid i64 literal".to_string()));
    let (_, r) = run(vec![print(call("string_to_int", vec![text("-")]))]);
    assert_eq!(r, Err("string_to_int: invalid i64 literal".to_string()));
    let (_, r) = run(vec![print(call("int_pow", vec![num(2), num(63)]))]);
    assert_eq!(r, Err("int_pow: arithmetic overflow".to_string()));
    let (_, r) = run(vec![print(call("int_pow", vec![num(2), num(-1)]))]);
    assert_eq!(r, Err("int_pow: exponent must be a non-negative u32".to_string()));
}

#[test]
fn byte_strings_and_closures_print() {
    let lam = Expr::Lambda { params: vec![("x".to_string(), None)], body: Box::new(var("x")), span: sp() };
    let (out, r) = run(vec![
        print(Expr::ByteString(vec![104, 105], sp())),
        print(Expr::ByteString(vec![], sp())),
        print(lam),
    ]);
    assert_eq!(r, Ok(()));
    assert_eq!(out, vec!["[104, 105]", "[]", "<fn>"]);
    assert_eq!(value_to_string(&vec![], &Value::Bytes(vec![1, 2, 3])), "[1, 2, 3]");
}

#[test]
fn effect_handlers_answer_calls_inside_their_block() {
    let handler = Expr::Lambda {
        params: vec![("msg".to_string(), None)],
        body: Box::new(bin(TokenKind::Plus, text("logged: "), var("msg"))),
        span: sp(),
    };
    let log_fn = func("log", &["msg"], vec![Stmt::Return(text("plain"), sp())]);
    let (out, r) = run(vec![
        log_fn,
        Stmt::Block(vec![
            Stmt::EffectHandler { effect: "log".to_string(), handler: Box::new(handler), span: sp() },
            print(call("log", vec![text("hi")])),
        ], sp()),
        print(call("log", vec![text("hi")])),
    ]);
    assert_eq!(r, Ok(()));
    assert_eq!(out, vec!["logged: hi", "plain"]);
    let two = Expr::Lambda { params: vec![("a".to_string(), None), ("b".to_string(), None)], body: Box::new(num(0)), span: sp() };
    let (_, r) = run(vec![
        Stmt::EffectHandler { effect: "ask".to_string(), handler: Box::new(two), span: sp() },
        print(call("ask", vec![num(1)])),
    ]);
    assert_eq!(r, Err("Effect handler 'ask' expected 2 args, got 1".to_string()));
}

#[test]
fn struct_patterns_match_maps() {
    let arm = MatchArm {
        pattern: Pattern::Struct("P".to_string(), vec![("x".to_string(), Pattern::Var("px".to_string()))]),
        guard: None,
        body: Box::new(var("px")),
        span: sp(),
    };
    let other = MatchArm { pattern: Pattern::Wildcard, guard: None, body: Box::new(num(-1)), span: sp() };
    let (out, r) = run(vec![
        let_("m", call("hashmap_new", vec![])),
        expr_stmt(call("hashmap_insert", vec![var("m"), text("x"), num(8)])),
        print(Expr::Match { expr: Box::new(var("m")), arms: vec![arm, other], span: sp() }),
    ]);
    assert_eq!(r, Ok(()));
    assert_eq!(out, vec!["8"]);
}

#[test]
fn vector_contains_compares_values() {
    let fl = |x: f64| Expr::Float(x.to_bits(), sp());
    let (out, r) = run(vec![
        let_("v", call("vector_new", vec![])),
        expr_stmt(call("vector_push", vec![var("v"), num(1)])),
        expr_stmt(call("vector_push", vec![var("v"), fl(0.0)])),
        expr_stmt(call("vector_push", vec![var("v"), fl(f64::NAN)])),
        let_("m1", call("hashmap_new", vec![])),
        expr_stmt(call("hashmap_insert", vec![var("m1"), text("a"), num(1)])),
        expr_stmt(call("hashmap_insert", vec![var("m1"), text("b"), num(2)])),
        let_("m2", call("hashmap_new", vec![])),
        expr_stmt(call("hashmap_insert", vec![var("m2"), text("b"), num(2)])),
        expr_stmt(call("hashmap_insert", vec![var("m2"), text("a"), num(1)])),
        expr_stmt(call("vector_push", vec![var("v"), var("m1")])),
        print(call("vector_contains", vec![var("v"), num(1)])),
        print(call("vector_contains", vec![var("v"), num(2)])),
        print(call("vector_contains", vec![var("v"), fl(-0.0)])),
        print(call("vector_contains", vec![var("v"), fl(f64::NAN)])),
        print(call("vector_contains", vec![var("v"), var("m2")])),
    ]);
    assert_eq!(r, Ok(()));
    assert_eq!(out, vec!["true", "false", "true", "false", "true"]);
    let (_, r) = run(vec![print(call("vector_contains", vec![num(1), num(1)]))]);
    assert_eq!(r, Err("vector_contains requires a vector and a value".to_string()));
}
