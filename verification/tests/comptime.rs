use omni_compiler::macros::{ComptimeContext, ComptimeExpr, ComptimeStmt, ComptimeValue, TypeInfo};

fn lit(n: i64) -> Box<ComptimeExpr> {
    Box::new(ComptimeExpr::Int(n))
}

fn bin(op: &str, a: Box<ComptimeExpr>, b: Box<ComptimeExpr>) -> ComptimeExpr {
    ComptimeExpr::BinOp(op.to_string(), a, b)
}

fn type_named(name: &str) -> TypeInfo {
    TypeInfo { name: name.to_string(), params: vec![], fields: vec![] }
}

#[test]
fn test_comptime() {
    let mut ctx = ComptimeContext::new(1000);
    let expr = ComptimeExpr::BinOp(
        "+".to_string(),
        Box::new(ComptimeExpr::Int(2)),
        Box::new(ComptimeExpr::Int(3)),
    );
    let result = ctx.eval(&expr);
    assert!(result.is_ok());
}

#[test]
fn comptime_arithmetic_and_comparison() {
    let mut ctx = ComptimeContext::new(1000);
    assert!(matches!(ctx.eval(&bin("+", lit(2), lit(3))), Ok(ComptimeValue::Int(5))));
    assert_eq!(ctx.ops_used, 3);
    assert!(matches!(ctx.eval(&bin("%", lit(-7), lit(2))), Ok(ComptimeValue::Int(-1))));
    assert!(matches!(ctx.eval(&bin("/", lit(-7), lit(2))), Ok(ComptimeValue::Int(-3))));
    assert!(matches!(ctx.eval(&bin("<=", lit(2), lit(2))), Ok(ComptimeValue::Bool(true))));
    let eq = bin("==", lit(1), Box::new(ComptimeExpr::Bool(true)));
    assert!(matches!(ctx.eval(&eq), Ok(ComptimeValue::Bool(false))));
    let neg = ComptimeExpr::UnaryOp("-".to_string(), lit(4));
    assert!(matches!(ctx.eval(&neg), Ok(ComptimeValue::Int(-4))));
}

#[test]
fn comptime_faults_are_errors() {
    let mut ctx = ComptimeContext::new(1000);
    assert_eq!(ctx.eval(&bin("+", lit(i64::MAX), lit(1))).unwrap_err(), "comptime integer addition overflow");
    assert_eq!(ctx.eval(&bin("/", lit(1), lit(0))).unwrap_err(), "comptime integer division fault");
    assert_eq!(ctx.eval(&bin("%", lit(i64::MIN), lit(-1))).unwrap_err(), "comptime integer remainder fault");
    let neg = ComptimeExpr::UnaryOp("-".to_string(), lit(i64::MIN));
    assert_eq!(ctx.eval(&neg).unwrap_err(), "comptime integer negation overflow");
    let bad = bin("+", Box::new(ComptimeExpr::Bool(true)), lit(1));
    assert_eq!(ctx.eval(&bad).unwrap_err(), "Invalid binary operation: + Bool(true) Int(1)");
    let unknown = ComptimeExpr::Call("nope".to_string(), vec![]);
    assert_eq!(ctx.eval(&unknown).unwrap_err(), "Unknown comptime function: nope");
}

#[test]
fn comptime_budget_is_enforced() {
    let mut ctx = ComptimeContext::new(2);
    assert_eq!(ctx.eval(&bin("+", lit(2), lit(3))).unwrap_err(), "Comptime operation budget exceeded");
    assert_eq!(ctx.ops_used, 3);
}

#[test]
fn comptime_builtins() {
    let mut ctx = ComptimeContext::new(1000);
    let size = ComptimeExpr::Call("sizeof".to_string(), vec![ComptimeExpr::TypeOf(type_named("i32"))]);
    assert!(matches!(ctx.eval(&size), Ok(ComptimeValue::Int(4))));
    let bad_size = ComptimeExpr::Call("sizeof".to_string(), vec![ComptimeExpr::TypeOf(type_named("Point"))]);
    assert_eq!(
        ctx.eval(&bad_size).unwrap_err(),
        "sizeof is not qualified for type 'Point' before the aggregate/layout milestone"
    );
    let ty = ComptimeExpr::Call("typeof".to_string(), vec![ComptimeExpr::Bool(true)]);
    match ctx.eval(&ty) {
        Ok(ComptimeValue::Type(t)) => assert_eq!(t.name, "bool"),
        other => panic!("unexpected {:?}", other),
    }
    let text = ComptimeExpr::Call("stringify".to_string(), vec![ComptimeExpr::Int(5)]);
    match ctx.eval(&text) {
        Ok(ComptimeValue::String(s)) => assert_eq!(s, "Int(5)"),
        other => panic!("unexpected {:?}", other),
    }
}

#[test]
fn comptime_blocks_bind_and_yield_the_last_value() {
    let mut ctx = ComptimeContext::new(1000);
    let block = ComptimeExpr::Block(vec![
        ComptimeStmt::Let("x".to_string(), ComptimeExpr::Int(7)),
        ComptimeStmt::Expr(bin("*", lit(6), lit(7))),
    ]);
    assert!(matches!(ctx.eval(&block), Ok(ComptimeValue::Int(42))));
    assert!(matches!(ctx.env.get("x"), Some(ComptimeValue::Int(7))));
    let empty = ComptimeExpr::Block(vec![]);
    assert!(matches!(ctx.eval(&empty), Ok(ComptimeValue::Unit)));
}
