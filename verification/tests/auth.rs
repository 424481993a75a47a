use rtracker::auth::ConnectionAuthority;

#[test]
fn token_accepted_for_issuing_address_within_window() {
    let mut auth = ConnectionAuthority::new();
    let token = auth.issue(0x0a000001, 6881, 1000);
    assert!(auth.validate(token, 0x0a000001, 6881, 1000));
    assert!(auth.validate(token, 0x0a000001, 6881, 1050));
    assert!(auth.validate(token, 0x0a000001, 6881, 1120));
}

#[test]
fn token_rejected_after_expiry() {
    let mut auth = ConnectionAuthority::new();
    let token = auth.issue(0x0a000001, 6881, 1000);
    assert!(!auth.validate(token, 0x0a000001, 6881, 1121));
    assert!(!auth.validate(token, 0x0a000001, 6881, 5000));
}

#[test]
fn token_rejected_for_other_address() {
    let mut auth = ConnectionAuthority::new();
    let token = auth.issue(0x0a000001, 6881, 1000);
    assert!(!auth.validate(token, 0x0a000002, 6881, 1000));
    assert!(!auth.validate(token, 0x0a000001, 6882, 1000));
}

#[test]
fn token_rejected_before_issue_time() {
    let mut auth = ConnectionAuthority::new();
    let token = auth.issue(0x0a000001, 6881, 1000);
    assert!(!auth.validate(token, 0x0a000001, 6881, 999));
}

#[test]
fn unissued_token_rejected() {
    let mut auth = ConnectionAuthority::new();
    let token = auth.issue(0x0a000001, 6881, 1000);
    assert!(!auth.validate(token.wrapping_add(1), 0x0a000001, 6881, 1000));
    assert_eq!(auth.token_count(), 1);
}

#[test]
fn each_issue_is_recorded() {
    let mut auth = ConnectionAuthority::new();
    let t1 = auth.issue(1, 1, 10);
    let t2 = auth.issue(2, 2, 10);
    assert!(auth.validate(t1, 1, 1, 10));
    assert!(auth.validate(t2, 2, 2, 10));
    if t1 != t2 {
        assert_eq!(auth.token_count(), 2);
    }
}
