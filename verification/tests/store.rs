use guarded_tls::{Guard, Inner};

#[test]
fn smoke() {
    let mut foo: Inner<u32> = Inner::new();
    let _foo_guard_1 = foo.set(3);
    assert_eq!(foo.read_latest().cloned(), Some(3));
    assert_eq!(foo.read_latest().cloned(), Some(3));

    let foo_guard_2 = foo.set(123);
    assert_eq!(foo.read_latest().cloned(), Some(123));

    foo_guard_2.release(&mut foo);
    assert_eq!(foo.read_latest().cloned(), Some(3));
}

#[test]
fn out_of_order_guard_drop() {
    let mut foo: Inner<u32> = Inner::new();
    let guard_1 = foo.set(1);
    let guard_2 = foo.set(2);
    let guard_3 = foo.set(3);
    assert_eq!(foo.read_latest().cloned(), Some(3));

    guard_1.release(&mut foo);
    assert_eq!(foo.read_latest().cloned(), Some(3));

    guard_3.release(&mut foo);
    assert_eq!(foo.read_latest().cloned(), Some(2));

    guard_2.release(&mut foo);
}

#[test]
fn non_copy_type() {
    let mut foo: Inner<String> = Inner::new();
    let _guard_1 = foo.set("x".into());
    let guard_2 = foo.set("y".into());

    assert_eq!(foo.read_latest().cloned().unwrap(), "y");
    guard_2.release(&mut foo);
    assert_eq!(foo.read_latest().cloned().unwrap(), "x");
}

#[test]
fn fresh_store_is_unset() {
    let foo: Inner<u32> = Inner::new();
    assert_eq!(foo.read_latest(), None);
    assert_eq!(foo.len(), 0);
    assert_eq!(foo.active_count(), 0);
    assert!(!foo.is_active(0));
}

#[test]
fn override_then_restore() {
    let mut foo: Inner<u32> = Inner::new();
    let _a = foo.set(10);
    assert_eq!(foo.read_latest(), Some(&10));
    let b = foo.set(20);
    assert_eq!(foo.read_latest(), Some(&20));
    assert_eq!(foo.len(), 2);
    b.release(&mut foo);
    assert_eq!(foo.read_latest(), Some(&10));
    assert_eq!(foo.len(), 1);
}

#[test]
fn last_release_leaves_store_unset() {
    let mut foo: Inner<u32> = Inner::new();
    let guard_1 = foo.set(1);
    let guard_2 = foo.set(2);
    let guard_3 = foo.set(3);
    guard_1.release(&mut foo);
    guard_3.release(&mut foo);
    guard_2.release(&mut foo);
    assert_eq!(foo.read_latest(), None);
    assert_eq!(foo.len(), 0);
}

#[test]
fn guards_carry_consecutive_indices() {
    let mut foo: Inner<u32> = Inner::new();
    let guard_1: Guard = foo.set(7);
    let guard_2: Guard = foo.set(8);
    assert_eq!(guard_1.index(), 0);
    assert_eq!(guard_2.index(), 1);
    assert_eq!(foo.append(9), 2);
    assert_eq!(foo.len(), 3);
}

#[test]
fn released_slot_in_the_middle_stays_until_it_is_last() {
    let mut foo: Inner<u32> = Inner::new();
    let guard_1 = foo.set(1);
    let guard_2 = foo.set(2);
    let guard_3 = foo.set(3);

    guard_2.release(&mut foo);
    assert_eq!(foo.len(), 3);
    assert_eq!(foo.active_count(), 2);
    assert!(foo.is_active(0));
    assert!(!foo.is_active(1));
    assert!(foo.is_active(2));
    assert_eq!(foo.read_latest(), Some(&3));

    guard_3.release(&mut foo);
    assert_eq!(foo.len(), 1);
    assert_eq!(foo.active_count(), 1);
    assert_eq!(foo.read_latest(), Some(&1));

    guard_1.release(&mut foo);
    assert_eq!(foo.len(), 0);
    assert_eq!(foo.active_count(), 0);
}

#[test]
fn length_never_exceeds_overrides_made() {
    let mut foo: Inner<u32> = Inner::new();
    let guard_1 = foo.set(1);
    assert!(foo.len() <= 1);
    let guard_2 = foo.set(2);
    assert!(foo.len() <= 2);
    guard_1.release(&mut foo);
    assert!(foo.len() <= 2);
    assert_eq!(foo.active_count(), 1);
    let guard_3 = foo.set(3);
    assert_eq!(foo.len(), 3);
    assert_eq!(foo.active_count(), 2);
    guard_3.release(&mut foo);
    guard_2.release(&mut foo);
    assert_eq!(foo.len(), 0);
}

#[test]
fn newest_first_release_shrinks_step_by_step() {
    let mut foo: Inner<u32> = Inner::new();
    let mut guards: Vec<Guard> = Vec::new();
    for v in 0..5u32 {
        guards.push(foo.set(v));
    }
    assert_eq!(foo.len(), 5);
    let mut expected: usize = 5;
    while let Some(guard) = guards.pop() {
        guard.release(&mut foo);
        expected -= 1;
        assert_eq!(foo.len(), expected);
        assert_eq!(foo.active_count(), expected);
    }
    assert_eq!(foo.len(), 0);
    assert_eq!(foo.read_latest(), None);
}

#[test]
fn oldest_first_release_keeps_length_until_the_end() {
    let mut foo: Inner<u32> = Inner::new();
    let mut guards: Vec<Guard> = Vec::new();
    for v in 0..4u32 {
        guards.push(foo.set(v));
    }
    let mut released: usize = 0;
    for guard in guards {
        guard.release(&mut foo);
        released += 1;
        if released < 4 {
            assert_eq!(foo.len(), 4);
            assert_eq!(foo.read_latest(), Some(&3));
        } else {
            assert_eq!(foo.len(), 0);
        }
        assert_eq!(foo.active_count(), 4 - released);
    }
    assert_eq!(foo.read_latest(), None);
}

#[test]
fn release_by_index_clears_and_trims() {
    let mut foo: Inner<u32> = Inner::new();
    assert_eq!(foo.append(1), 0);
    assert_eq!(foo.append(2), 1);
    assert_eq!(foo.append(3), 2);
    foo.release(1);
    assert_eq!(foo.len(), 3);
    foo.release(2);
    assert_eq!(foo.len(), 1);
    assert_eq!(foo.read_latest(), Some(&1));
}

#[test]
fn releasing_a_released_slot_changes_nothing() {
    let mut foo: Inner<u32> = Inner::new();
    foo.append(1);
    foo.append(2);
    foo.append(3);
    foo.release(0);
    foo.release(0);
    assert_eq!(foo.len(), 3);
    assert_eq!(foo.active_count(), 2);
    assert_eq!(foo.read_latest(), Some(&3));
}

#[test]
fn override_after_compaction_reuses_the_index() {
    let mut foo: Inner<u32> = Inner::new();
    let guard_1 = foo.set(1);
    let guard_2 = foo.set(2);
    assert_eq!(guard_2.index(), 1);
    guard_2.release(&mut foo);
    let guard_3 = foo.set(3);
    assert_eq!(guard_3.index(), 1);
    assert_eq!(foo.read_latest(), Some(&3));
    guard_3.release(&mut foo);
    guard_1.release(&mut foo);
    assert_eq!(foo.len(), 0);
}

#[test]
fn separate_stores_do_not_share_values() {
    let mut here: Inner<u32> = Inner::new();
    let there: Inner<u32> = Inner::new();
    let guard = here.set(5);
    assert_eq!(here.read_latest(), Some(&5));
    assert_eq!(there.read_latest(), None);
    guard.release(&mut here);
    assert_eq!(here.read_latest(), None);
}
