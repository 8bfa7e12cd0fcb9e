use lanpaste::watch::{
    begin_file_promise, begin_own_write, finish_own_write, mark_own_write, note_own_promise,
    own_promise_active, own_write_in_grace, saturating_add_i64, saturating_sub_i64,
    should_ignore_own_change, OwnWrites, OWN_WRITE_GRACE_MS,
};

#[test]
fn own_write_grace_ignores_extra_change_counts() {
    let mut w = OwnWrites::new();
    let now = 1_000_000;
    mark_own_write(&mut w, 42, now);
    assert!(own_write_in_grace(&w, now));
    assert!(should_ignore_own_change(&w, 99, -1, now, &Ok(99)));
    assert!(should_ignore_own_change(&w, 42, 42, now, &Ok(42)));
}

#[test]
fn grace_window_ends() {
    let mut w = OwnWrites::new();
    mark_own_write(&mut w, 7, 1_000);
    assert!(own_write_in_grace(&w, 1_000 + OWN_WRITE_GRACE_MS - 1));
    assert!(!own_write_in_grace(&w, 1_000 + OWN_WRITE_GRACE_MS));
    // After the window a foreign change is taken in...
    assert!(!should_ignore_own_change(&w, 8, -1, 5_000, &Ok(8)));
    // ...but the clipboard still holding our own write is not.
    assert!(should_ignore_own_change(&w, 8, -1, 5_000, &Ok(7)));
}

#[test]
fn promise_follows_change_count() {
    let mut w = OwnWrites::new();
    assert!(!own_promise_active(&w, &Ok(0)));
    note_own_promise(&mut w, Some(3));
    assert!(own_promise_active(&w, &Ok(3)));
    assert!(!own_promise_active(&w, &Ok(4)));
    assert!(!own_promise_active(&w, &Err("no pasteboard".into())));
    note_own_promise(&mut w, None);
    assert!(!own_promise_active(&w, &Ok(-1)));
}

#[test]
fn writing_state_round_trip() {
    let mut w = OwnWrites::new();
    begin_file_promise(&mut w, "entry-1");
    assert!(w.skip_read);
    assert!(own_promise_active(&w, &Ok(123)));
    assert_eq!(w.promise_id.as_deref(), Some("entry-1"));
    finish_own_write(&mut w, &Err("no file".into()), 10);
    assert!(!w.skip_read);
    assert_eq!(w.promise_count, -1);
    assert!(w.promise_id.is_none());

    begin_own_write(&mut w);
    finish_own_write(&mut w, &Ok(5), 10);
    assert_eq!(w.promise_count, 5);
    assert_eq!(w.until_ms, 10 + OWN_WRITE_GRACE_MS);
}

#[test]
fn saturating_time_arithmetic() {
    assert_eq!(saturating_add_i64(i64::MAX - 1, 800), i64::MAX);
    assert_eq!(saturating_add_i64(1, 2), 3);
    assert_eq!(saturating_sub_i64(i64::MIN + 1, 5), i64::MIN);
    assert_eq!(saturating_sub_i64(10, 3), 7);
    let mut w = OwnWrites::new();
    mark_own_write(&mut w, 1, i64::MAX);
    assert_eq!(w.until_ms, i64::MAX);
}
