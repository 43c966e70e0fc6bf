use catacomb::web::{hash_password, login_result, login_step, LoginAttempt, LoginOutcome, LOGIN_LOCKOUT_AFTER, LOGIN_LOCKOUT_SECS};

#[test]
fn matching_password_clears_the_entry() {
    let e = Some(LoginAttempt { failures: 3, until: None });
    let (o, after) = login_result(e, true, 100);
    assert_eq!(o, LoginOutcome::Accepted);
    assert!(after.is_none());
}

#[test]
fn mismatch_counts_and_locks_on_the_fifth() {
    let (o, after) = login_result(None, false, 100);
    assert_eq!(o, LoginOutcome::Refused);
    let a = after.unwrap();
    assert_eq!((a.failures, a.until), (1, None));
    let e = Some(LoginAttempt { failures: LOGIN_LOCKOUT_AFTER - 1, until: None });
    let (_, after) = login_result(e, false, 100);
    let a = after.unwrap();
    assert_eq!((a.failures, a.until), (0, Some(100 + LOGIN_LOCKOUT_SECS)));
}

#[test]
fn login_flow_with_a_real_hash() {
    let h = hash_password("hunter2").expect("hashing works");
    let (o, e) = login_step(None, "hunter2", Some(&h), 1000);
    assert_eq!(o, LoginOutcome::Accepted);
    assert!(e.is_none());

    let mut entry = None;
    for _ in 0..LOGIN_LOCKOUT_AFTER {
        let (o, e) = login_step(entry, "wrong", Some(&h), 1000);
        assert_eq!(o, LoginOutcome::Refused);
        entry = e;
    }
    // Locked: even the right password is refused until the lockout ends.
    let (o, e) = login_step(entry, "hunter2", Some(&h), 1001);
    assert_eq!(o, LoginOutcome::Locked);
    assert_eq!(e.unwrap().until, Some(1000 + LOGIN_LOCKOUT_SECS));
    let (o, e) = login_step(entry, "hunter2", Some(&h), 1000 + LOGIN_LOCKOUT_SECS);
    assert_eq!(o, LoginOutcome::Accepted);
    assert!(e.is_none());
}

#[test]
fn no_password_configured() {
    let e = Some(LoginAttempt { failures: 2, until: Some(10) });
    let (o, after) = login_step(e, "x", None, 50);
    assert_eq!(o, LoginOutcome::NoPassword);
    // The elapsed lockout entry was dropped.
    assert!(after.is_none());
}
