use omni_compiler::generational_refs::{Arena, GenRef};

fn live_values(arena: &Arena<i32>) -> Vec<i32> {
    let mut it = arena.iter();
    let mut values = Vec::new();
    while let Some((_, v)) = it.next() {
        values.push(*v);
    }
    values
}

#[test]
fn genref_basic_alloc_and_get() {
    let mut arena: Arena<i32> = Arena::new();
    let r = arena.allocate(42);
    assert_eq!(arena.get(r), Some(&42));
    assert_eq!(arena.live_count(), 1);
}

#[test]
fn genref_mutate_through_ref() {
    let mut arena: Arena<i32> = Arena::new();
    let r = arena.allocate(10);
    if let Some(v) = arena.get_mut(r) {
        *v = 20;
    } else {
        panic!("fresh handle must be valid");
    }
    assert_eq!(arena.get(r), Some(&20));
}

#[test]
fn genref_remove_invalidates_and_double_remove_fails() {
    let mut arena: Arena<i32> = Arena::new();
    let r = arena.allocate(99);
    assert!(arena.remove(r));
    assert!(!arena.remove(r));
    assert!(!arena.is_valid(r));
    assert_eq!(arena.live_count(), 0);
}

#[test]
fn stale_handle_never_aliases_reused_slot() {
    let mut arena: Arena<i32> = Arena::new();
    let old = arena.allocate(1);
    assert!(arena.remove(old));
    let new = arena.allocate(2);
    assert_eq!(old.idx, new.idx);
    assert_ne!(old.gen, new.gen);
    assert_eq!(arena.get(old), None);
    assert_eq!(arena.get(new), Some(&2));
}

#[test]
fn genref_iter_skips_removed_values() {
    let mut arena: Arena<i32> = Arena::new();
    let _r1 = arena.allocate(1);
    let r2 = arena.allocate(2);
    let _r3 = arena.allocate(3);
    assert!(arena.remove(r2));
    let values: Vec<i32> = live_values(&arena);
    assert_eq!(values, vec![1, 3]);
}

#[test]
fn pointer_observation_tracks_validity() {
    let mut arena: Arena<i32> = Arena::new();
    let r = arena.allocate(7);
    assert!(r.as_ptr(&arena).is_some());
    assert!(arena.remove(r));
    assert!(r.as_ptr(&arena).is_none());
}

#[test]
fn handle_out_of_range_is_invalid() {
    let arena: Arena<i32> = Arena::new();
    let r: GenRef<i32> = GenRef::new(5, 0);
    assert!(!arena.is_valid(r));
    assert_eq!(arena.get(r), None);
    assert_eq!(arena.live_count(), 0);
}

#[test]
fn fresh_slots_are_appended_in_order() {
    let mut arena: Arena<&str> = Arena::default();
    let a = arena.allocate("a");
    let b = arena.allocate("b");
    assert_eq!(a.idx, 0);
    assert_eq!(b.idx, 1);
    assert_eq!(a.gen, 0);
    assert_eq!(arena.live_count(), 2);
    assert!(arena.remove(a));
    let c = arena.allocate("c");
    assert_eq!(c.idx, 0);
    assert_eq!(c.gen, 1);
    assert_eq!(arena.get(b), Some(&"b"));
}
