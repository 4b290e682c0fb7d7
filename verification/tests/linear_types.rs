use omni_compiler::linear_types::{FfiSandbox, InOutDesugar, LinearKind, LinearTypeChecker};

#[test]
fn test_linear_check() {
    let mut checker = LinearTypeChecker::new();
    checker.register_linear("tx", LinearKind::Linear);

    assert!(checker.is_linear("tx"));

    checker.mark_consumed("tx").unwrap();
    let result = checker.mark_consumed("tx");
    assert!(result.is_err());
}

#[test]
fn test_inout_simple() {
    let mut desugar = InOutDesugar::new();
    let params = vec!["inout_x".to_string(), "y".to_string()];
    let result = desugar.detect_inout(&params);

    assert_eq!(result.len(), 2);
    assert!(result[0].1);
    assert!(!result[1].1);
}

#[test]
fn test_ffi_sandbox() {
    let mut sandbox = FfiSandbox::new();
    sandbox.grant_capability("io");

    assert!(sandbox.has_capability("io"));
    assert!(!sandbox.has_capability("fs"));
}

#[test]
fn linear_value_used_twice_reports_message() {
    let mut checker = LinearTypeChecker::new();
    checker.register_linear("tx", LinearKind::Linear);
    assert!(checker.check_available("tx").is_ok());
    assert!(checker.mark_consumed("tx").is_ok());
    assert_eq!(checker.mark_consumed("tx"), Err("Linear value `tx` already used".to_string()));
    assert_eq!(checker.check_available("tx"), Err("Linear value `tx` already consumed".to_string()));
}

#[test]
fn non_linear_names_are_not_tracked() {
    let mut checker = LinearTypeChecker::new();
    checker.register_linear("a", LinearKind::Affine);
    assert!(!checker.is_linear("a"));
    assert!(checker.mark_consumed("a").is_ok());
    assert!(checker.mark_consumed("a").is_ok());
    assert!(checker.mark_consumed("unknown").is_ok());
    assert!(checker.check_scope_exit(&["a".to_string()]).is_empty());
}

#[test]
fn inout_rewrites() {
    let mut d = InOutDesugar::new();
    let r = d.detect_inout(&["inout_count".to_string()]);
    assert_eq!(r[0].0, "count");
    assert_eq!(d.desugar_signature("inout x: i32, y: bool"), "__in_x: i32:  i32,  y: bool");
    assert_eq!(d.generate_move_in("inout_x"), vec!["let __in_x = inout_x;".to_string()]);
    assert_eq!(d.generate_move_out("inout_x"), vec!["x = __out_x;".to_string()]);
}

#[test]
fn sandbox_calls_and_filesystem() {
    let mut sandbox = FfiSandbox::new();
    assert!(!sandbox.can_call("puts"));
    assert_eq!(sandbox.check("puts"), Err("FFI call `puts` not allowed in sandbox".to_string()));
    sandbox.allow_call("puts");
    assert!(sandbox.can_call("puts"));
    assert!(sandbox.check("puts").is_ok());
    sandbox.grant_capability("fs");
    assert!(sandbox.has_capability("filesystem"));
    assert!(!sandbox.has_capability("fs"));
}
