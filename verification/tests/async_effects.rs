use omni_compiler::async_effects::{CancellationToken, Channel, Effect, EffectSet, SpawnScope};

#[test]
fn test_effect_set() {
    let mut es = EffectSet::new();
    es.add(Effect::Io);
    es.add(Effect::Async);

    assert!(es.contains(&Effect::Io));
    assert!(es.contains(&Effect::Async));
}

#[test]
fn test_cancellation() {
    let mut token = CancellationToken::new();

    assert!(!token.is_cancelled());
    token.check().unwrap();

    token.cancel(Some("Test cancel".to_string()));

    assert!(token.is_cancelled());
    assert!(token.check().is_err());
}

#[test]
fn async_effects_test_spawn_scope() {
    let mut scope = SpawnScope::new(1);
    scope.spawn(2).unwrap();

    assert_eq!(scope.child_ids.len(), 1);
}

#[test]
fn async_effects_test_channel() {
    let mut ch: Channel<i32> = Channel::new(10);

    ch.send(42).unwrap();
    ch.send(43).unwrap();

    assert_eq!(ch.receive(), Some(42));
    assert_eq!(ch.receive(), Some(43));
}

#[test]
fn channel_refuses_when_full_or_closed() {
    let mut ch: Channel<u8> = Channel::new(1);
    assert!(ch.send(1).is_ok());
    assert_eq!(ch.send(2), Err("Channel full".to_string()));
    ch.close();
    assert!(ch.is_closed());
    assert_eq!(ch.send(3), Err("Channel closed".to_string()));
    assert_eq!(ch.receive(), Some(1));
    assert_eq!(ch.receive(), None);
}

#[test]
fn effect_set_adds_once_and_unions() {
    let mut a = EffectSet::new();
    a.add(Effect::Io);
    a.add(Effect::Io);
    assert_eq!(a.to_string_list(), "io");
    let b = EffectSet::with_async();
    let u = a.union(&b);
    assert!(u.contains(&Effect::Io));
    assert!(u.contains(&Effect::Async));
    assert!(!u.contains(&Effect::Panic));
    assert!(EffectSet::empty().contains(&Effect::Pure));
}

#[test]
fn pure_effect_composes() {
    assert!(Effect::Pure.is_pure());
    assert!(!Effect::Io.is_pure());
    assert!(Effect::Pure.composed_with(&Effect::Io));
}

#[test]
fn spawn_scope_limits_children() {
    let mut scope = SpawnScope::new(7);
    scope.max_children = 1;
    assert!(scope.spawn(1).is_ok());
    assert_eq!(scope.spawn(2), Err("Max children reached".to_string()));
    assert_eq!(scope.child_ids, vec![1]);
}

#[test]
fn cancellation_reason_is_reported() {
    let mut token = CancellationToken::new();
    token.cancel(None);
    assert_eq!(token.check(), Err("Cancelled".to_string()));
    let mut token = CancellationToken::new();
    token.cancel(Some("stop".to_string()));
    assert_eq!(token.check(), Err("stop".to_string()));
}

#[test]
fn effect_union_keeps_left_order_and_adds_new_effects() {
    let mut a = EffectSet::new();
    a.add(Effect::Io);
    a.add(Effect::Async);
    let mut b = EffectSet::new();
    b.add(Effect::Async);
    b.add(Effect::Pure);
    let u = a.union(&b);
    assert_eq!(u.to_string_list(), "io, async, pure");
    assert_eq!(a.union(&a).to_string_list(), a.to_string_list());
}
