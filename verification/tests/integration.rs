use omni_compiler::integration::OmniInterpreter;
use omni_compiler::interpreter::Value;

#[test]
fn integration_test_channel() {
    let mut interp = OmniInterpreter::new();
    interp.add_channel("test", 10);

    interp.send_to_channel("test", Value::Int(42)).unwrap();
    let val = interp.receive_from_channel("test");
    assert_eq!(val, Some(Value::Int(42)));
}

#[test]
fn test_cancellation_token() {
    let mut interp = OmniInterpreter::new();
    interp.add_cancellation_token("cancel1");

    assert!(!interp.is_token_cancelled("cancel1"));
    interp.cancel_token("cancel1", Some("test cancel".to_string()));
    assert!(interp.is_token_cancelled("cancel1"));
}

#[test]
fn integration_test_spawn_scope() {
    let mut interp = OmniInterpreter::new();
    let mut scope = interp.spawn_scope(1);
    scope.spawn(2).unwrap();
    assert_eq!(scope.child_ids.len(), 1);
}

#[test]
fn missing_and_full_channels_are_errors() {
    let mut interp = OmniInterpreter::new();
    assert_eq!(interp.send_to_channel("none", Value::Unit), Err("Channel none not found".to_string()));
    assert_eq!(interp.receive_from_channel("none"), None);
    interp.add_channel("one", 1);
    assert!(interp.send_to_channel("one", Value::Int(1)).is_ok());
    assert_eq!(interp.send_to_channel("one", Value::Int(2)), Err("Channel full".to_string()));
    assert!(!interp.is_token_cancelled("never-added"));
}
