use pixelflux::security::{admin_session_cookie, constant_time_eq};

#[test]
fn constant_time_eq_matches_only_equal_bytes() {
    assert!(constant_time_eq(b"secret", b"secret"));
    assert!(!constant_time_eq(b"secret", b"secrev"));
    assert!(!constant_time_eq(b"secret", b"secre"));
}

#[test]
fn session_cookie_is_found_among_pairs() {
    assert_eq!(admin_session_cookie(Some("a=1; admin_session=abc; b=2")), "abc");
    assert_eq!(admin_session_cookie(Some(" admin_session=x=y ")), "x=y");
    assert_eq!(admin_session_cookie(Some("admin=1;other=2")), "");
    assert_eq!(admin_session_cookie(None), "");
}
