use ownership_tracker::tracker::{Tracker, TrackerError, Value};

#[test]
fn move_then_use_fails() {
    let mut t = Tracker::new();
    let s1 = t.bind("s1", Value::owned_text(String::from("hello")));
    let s2 = t.move_binding("s1", "s2").unwrap();
    assert_eq!(t.use_binding(s1), Err(TrackerError::UseAfterMove));
    assert_eq!(t.use_binding(s2), Ok(()));
}

#[test]
fn copy_keeps_source_usable() {
    let mut t = Tracker::new();
    let x = t.bind("x", Value::copyable_int(5));
    let y = t.copy_binding("x", "y").unwrap();
    assert_eq!(t.use_binding(x), Ok(()));
    assert_eq!(t.use_binding(y), Ok(()));
}

#[test]
fn two_shared_borrows_coexist() {
    let mut t = Tracker::new();
    t.bind("s", Value::owned_text(String::from("hi")));
    let r1 = t.borrow_shared("s").unwrap();
    let r2 = t.borrow_shared("s").unwrap();
    assert_eq!(t.use_binding(r1), Ok(()));
    assert_eq!(t.use_binding(r2), Ok(()));
}

#[test]
fn second_unique_borrow_conflicts() {
    let mut t = Tracker::new();
    t.bind("s", Value::owned_text(String::from("hi")));
    let r1 = t.borrow_unique("s").unwrap();
    assert_eq!(t.borrow_unique("s"), Err(TrackerError::BorrowConflict));
    assert_eq!(t.use_binding(r1), Ok(()));
}

#[test]
fn unique_borrow_after_inner_scope_ended() {
    let mut t = Tracker::new();
    t.bind("s", Value::owned_text(String::from("hi")));
    let inner = t.begin_scope();
    let r1 = t.borrow_unique("s").unwrap();
    assert_eq!(t.end_scope(inner), Ok(()));
    let r2 = t.borrow_unique("s").unwrap();
    assert_eq!(t.use_binding(r2), Ok(()));
    assert_eq!(t.use_binding(r1), Err(TrackerError::UseAfterMove));
}

#[test]
fn move_with_live_shared_ref_is_borrow_conflict() {
    let mut t = Tracker::new();
    t.bind("s", Value::owned_text(String::from("hello")));
    let _r = t.borrow_shared("s").unwrap();
    assert_eq!(t.move_binding("s", "t"), Err(TrackerError::BorrowConflict));
}

#[test]
fn move_of_moved_binding_with_live_ref_still_reports_conflict() {
    // Conflict checking precedes the moved-from check.
    let mut t = Tracker::new();
    t.bind("s", Value::owned_text(String::from("hello")));
    t.move_binding("s", "t").unwrap();
    let _r = t.borrow_shared("t").unwrap();
    assert_eq!(t.move_binding("s", "u"), Err(TrackerError::BorrowConflict));
}

#[test]
fn move_of_moved_binding_fails_use_after_move() {
    let mut t = Tracker::new();
    t.bind("s", Value::owned_text(String::from("hello")));
    t.move_binding("s", "t").unwrap();
    assert_eq!(t.move_binding("s", "u"), Err(TrackerError::UseAfterMove));
}

#[test]
fn copy_of_owned_value_is_not_copyable() {
    let mut t = Tracker::new();
    t.bind("s", Value::owned_text(String::from("hello")));
    assert_eq!(t.copy_binding("s", "t"), Err(TrackerError::NotCopyable));
    // The failed copy left the source untouched.
    assert_eq!(t.move_binding("s", "t").is_ok(), true);
}

#[test]
fn copy_of_moved_binding_fails_use_after_move() {
    let mut t = Tracker::new();
    t.bind("x", Value::copyable_int(5));
    t.move_binding("x", "y").unwrap();
    assert_eq!(t.copy_binding("x", "z"), Err(TrackerError::UseAfterMove));
}

#[test]
fn reference_dropped_with_its_own_scope() {
    let mut t = Tracker::new();
    t.bind("s", Value::owned_text(String::from("hi")));
    let inner = t.begin_scope();
    let r = t.borrow_shared("s").unwrap();
    assert_eq!(t.end_scope(inner), Ok(()));
    assert_eq!(t.use_binding(r), Err(TrackerError::UseAfterMove));
}

#[test]
fn unknown_names_and_ids_are_rejected() {
    let mut t = Tracker::new();
    assert_eq!(t.move_binding("ghost", "g2"), Err(TrackerError::UnknownBinding));
    assert_eq!(t.copy_binding("ghost", "g2"), Err(TrackerError::UnknownBinding));
    assert_eq!(t.borrow_shared("ghost"), Err(TrackerError::UnknownBinding));
    assert_eq!(t.borrow_unique("ghost"), Err(TrackerError::UnknownBinding));
    assert_eq!(t.use_binding(7), Err(TrackerError::UnknownBinding));
}

#[test]
fn use_after_own_scope_ended_fails() {
    let mut t = Tracker::new();
    let inner = t.begin_scope();
    let s = t.bind("s", Value::owned_text(String::from("hi")));
    assert_eq!(t.end_scope(inner), Ok(()));
    assert_eq!(t.use_binding(s), Err(TrackerError::UseAfterMove));
}

#[test]
fn reference_outliving_referent_scope_is_dangling() {
    let mut t = Tracker::new();
    let owner_scope = t.begin_scope();
    t.bind("s", Value::owned_text(String::from("hi")));
    let _ref_scope = t.begin_scope();
    let r = t.borrow_shared("s").unwrap();
    assert_eq!(t.end_scope(owner_scope), Ok(()));
    assert_eq!(t.use_binding(r), Err(TrackerError::DanglingReference));
}

#[test]
fn end_scope_rejects_root_dead_and_unknown_scopes() {
    let mut t = Tracker::new();
    assert_eq!(t.end_scope(0), Err(TrackerError::UnknownBinding));
    assert_eq!(t.end_scope(9), Err(TrackerError::UnknownBinding));
    let s = t.begin_scope();
    assert_eq!(t.end_scope(s), Ok(()));
    assert_eq!(t.end_scope(s), Err(TrackerError::UnknownBinding));
}

#[test]
fn shared_and_unique_never_mix() {
    let mut t = Tracker::new();
    t.bind("s", Value::owned_text(String::from("hi")));
    let _r = t.borrow_shared("s").unwrap();
    assert_eq!(t.borrow_unique("s"), Err(TrackerError::BorrowConflict));

    let mut t2 = Tracker::new();
    t2.bind("s", Value::owned_text(String::from("hi")));
    let _u = t2.borrow_unique("s").unwrap();
    assert_eq!(t2.borrow_shared("s"), Err(TrackerError::BorrowConflict));
}

#[test]
fn failed_operation_changes_nothing() {
    let mut t = Tracker::new();
    t.bind("s", Value::owned_text(String::from("hi")));
    let r = t.borrow_shared("s").unwrap();
    // A rejected move leaves the binding usable and the borrow intact.
    assert_eq!(t.move_binding("s", "t"), Err(TrackerError::BorrowConflict));
    assert_eq!(t.use_binding(r), Ok(()));
    let r2 = t.borrow_shared("s").unwrap();
    assert_eq!(t.use_binding(r2), Ok(()));
}

#[test]
fn rebinding_a_name_shadows_the_older_binding() {
    let mut t = Tracker::new();
    let first = t.bind("x", Value::copyable_int(1));
    let second = t.bind("x", Value::copyable_int(2));
    // Operations by name reach the newest binding only.
    let copied = t.copy_binding("x", "y").unwrap();
    assert_eq!(t.use_binding(first), Ok(()));
    assert_eq!(t.use_binding(second), Ok(()));
    assert_eq!(t.use_binding(copied), Ok(()));
}

#[test]
fn moved_value_is_not_released_by_old_scope() {
    let mut t = Tracker::new();
    t.bind("a", Value::owned_text(String::from("x")));
    let inner = t.begin_scope();
    t.move_binding("a", "b").unwrap();
    let r = t.borrow_shared("b").unwrap();
    assert_eq!(t.use_binding(r), Ok(()));
    assert_eq!(t.end_scope(inner), Ok(()));
    // Scope `inner` owned the value (through `b`), so it is gone now.
    let outer_ref = t.borrow_shared("a");
    assert_eq!(outer_ref, Err(TrackerError::UseAfterMove));
}
