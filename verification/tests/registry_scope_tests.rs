use quickjslib::registry::HandleTable;
use quickjslib::scope::{ContextPtr, ContextStack};

#[test]
fn restore_after_persist_yields_the_value() {
    let mut t: HandleTable<String> = HandleTable::new();
    let h = t.persist("engine value".to_string());
    assert_eq!(t.restore(h), Some(&"engine value".to_string()));
    // Restoring is idempotent: it does not consume.
    assert_eq!(t.restore(h), Some(&"engine value".to_string()));
}

#[test]
fn restore_after_close_is_detected() {
    let mut t: HandleTable<u32> = HandleTable::new();
    let h = t.persist(5);
    assert_eq!(t.close(h), Some(5));
    // The violation is detected, never another value.
    assert_eq!(t.restore(h), None);
}

#[test]
fn double_close_is_detected() {
    let mut t: HandleTable<u32> = HandleTable::new();
    let h = t.persist(5);
    assert_eq!(t.close(h), Some(5));
    assert_eq!(t.close(h), None);
}

#[test]
fn a_stale_handle_does_not_alias_a_reused_slot() {
    let mut t: HandleTable<u32> = HandleTable::new();
    let h1 = t.persist(1);
    t.close(h1);
    // The slot is reused under a new generation.
    let h2 = t.persist(2);
    assert_ne!(h1, h2);
    assert_eq!(t.restore(h1), None);
    assert_eq!(t.restore(h2), Some(&2));
}

#[test]
fn handles_are_independent() {
    let mut t: HandleTable<u32> = HandleTable::new();
    let h1 = t.persist(1);
    let h2 = t.persist(2);
    let h3 = t.persist(3);
    t.close(h2);
    assert_eq!(t.restore(h1), Some(&1));
    assert_eq!(t.restore(h2), None);
    assert_eq!(t.restore(h3), Some(&3));
}

#[test]
fn replace_keeps_the_handle_and_swaps_the_value() {
    let mut t: HandleTable<u32> = HandleTable::new();
    let h = t.persist(1);
    assert_eq!(t.replace(h, 9), Some(1));
    assert_eq!(t.restore(h), Some(&9));
    let dead = t.persist(2);
    t.close(dead);
    assert_eq!(t.replace(dead, 7), None);
}

#[test]
fn context_ptr_keeps_its_word() {
    let c = ContextPtr::new(0xBEEF);
    assert_eq!(c.ptr, 0xBEEF);
}

#[test]
fn outermost_enter_pushes_and_exit_pops() {
    let mut s = ContextStack::new();
    let (token, pushed) = s.enter(1, 100);
    assert_eq!(token, 100);
    assert!(pushed);
    s.exit(pushed);
    // The stack is back to empty: entering again pushes anew.
    let (token2, pushed2) = s.enter(1, 200);
    assert_eq!(token2, 200);
    assert!(pushed2);
}

#[test]
fn nested_enter_borrows_the_live_scope() {
    let mut s = ContextStack::new();
    let (outer_token, outer_pushed) = s.enter(1, 100);
    assert!(outer_pushed);
    // A re-entrant call for the same context reuses the existing scope
    // token instead of creating a second one.
    let (inner_token, inner_pushed) = s.enter(1, 999);
    assert_eq!(inner_token, outer_token);
    assert!(!inner_pushed);
    // The nested call exits without popping; the owner pops.
    s.exit(inner_pushed);
    let (again_token, again_pushed) = s.enter(1, 888);
    assert_eq!(again_token, outer_token);
    assert!(!again_pushed);
    s.exit(again_pushed);
    s.exit(outer_pushed);
}

#[test]
fn distinct_contexts_get_distinct_scopes_in_lifo_order() {
    let mut s = ContextStack::new();
    let (t1, p1) = s.enter(1, 10);
    let (t2, p2) = s.enter(2, 20);
    assert_eq!(t1, 10);
    assert_eq!(t2, 20);
    assert!(p1 && p2);
    // The innermost context pops first; context 1 is still live below.
    s.exit(p2);
    let (t1_again, p1_again) = s.enter(1, 30);
    assert_eq!(t1_again, 10);
    assert!(!p1_again);
    s.exit(p1_again);
    s.exit(p1);
}
