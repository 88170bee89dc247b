use pixelflux::clock::{nanos_u64, saturate_nanos, unsigned_secs_or_zero};
use pixelflux::canvas::{blank_canvas, check_pixel, event_payload, CANVAS_LEN, WIDTH};
use pixelflux::clock::secs_or_zero;
use pixelflux::color::normalize_color;
use pixelflux::errors::{status_code, ApiError, PixelError};
use pixelflux::events::{drain_to_batch, PixelBuffer};
use pixelflux::ident::{new_session_id, new_token};
use pixelflux::settings::Settings;
use pixelflux::shared::{
    presence_cutoff, rate_key, rate_verdict, session_key, starts_window, stored_counter, token_key,
};
use pixelflux::state::{AppState, ADMIN_SESSION_TTL_SECS, NANOS_PER_SEC};

#[test]
fn colours_are_normalised() {
    assert_eq!(normalize_color("  #A0b1C2\t"), Some("a0b1c2".to_string()));
    assert_eq!(normalize_color("##ffffff"), Some("ffffff".to_string()));
    assert_eq!(normalize_color("ffffff0"), None);
    assert_eq!(normalize_color("ff ff ff"), None);
    assert_eq!(normalize_color("éééééé"), None);
    assert_eq!(normalize_color(""), None);
}

#[test]
fn blank_canvas_is_white() {
    let c = blank_canvas();
    assert_eq!(c.len(), CANVAS_LEN);
    assert!(c.iter().all(|b| *b == b'f'));
}

#[test]
fn paint_payload_is_json() {
    let p = check_pixel(12, 34, "#00FF7f").unwrap();
    assert_eq!(p.offset(), (34 * WIDTH + 12) * 6);
    assert_eq!(event_payload(&p), r#"{"x":12,"y":34,"color":"00ff7f"}"#);
}

#[test]
fn batches_escape_colour_text_and_keep_first_position() {
    let mut b = PixelBuffer::new();
    b.insert(1, 1, "a\"b\\c\n".to_string());
    b.insert(2, 0, "000000".to_string());
    b.insert(1, 1, "q\u{1}".to_string());
    assert_eq!(b.len(), 2);
    assert_eq!(
        drain_to_batch(b),
        Some(r#"[{"x":1,"y":1,"color":"q\u0001"},{"x":2,"y":0,"color":"000000"}]"#.to_string())
    );
}

#[test]
fn folded_events_are_flushed_once() {
    let mut s = AppState::new(None);
    s.fold_event(7, 8, "123456".to_string());
    assert!(s.set_pixel(7, 8, "abcdef").is_ok());
    assert_eq!(s.take_batch(), Some(r#"[{"x":7,"y":8,"color":"abcdef"}]"#.to_string()));
    assert_eq!(s.take_batch(), None);
    // An update from elsewhere does not touch the local canvas.
    s.fold_event(0, 0, "000000".to_string());
    assert_eq!(&s.canvas()[0..6], "ffffff");
}

#[test]
fn clearing_restores_white_and_counts_paints() {
    let mut s = AppState::new(None);
    assert!(s.set_pixel(0, 0, "000000").is_ok());
    assert!(s.set_pixel(0, 0, "111111").is_ok());
    s.store_token("t");
    let st = s.stats_at(0);
    assert_eq!((st.pixels_painted, st.tokens_issued, st.online), (2, 1, 0));
    s.clear_canvas();
    assert!(s.canvas().chars().all(|c| c == 'f'));
}

#[test]
fn stored_canvas_is_used_when_complete() {
    let s = AppState::new(None);
    let full = "0".repeat(CANVAS_LEN);
    assert_eq!(s.canvas_or_stored(Some(full.clone())), full);
    assert_eq!(s.canvas_or_stored(Some("abc".to_string())), s.canvas());
    assert_eq!(s.canvas_or_stored(None), s.canvas());
}

#[test]
fn rate_window_restarts_after_it_runs_out() {
    let mut s = AppState::new(None);
    let mut cfg = s.settings();
    cfg.rate_limit = 1;
    cfg.rate_window_secs = 2;
    s.update_settings(cfg);
    s.store_token("w");
    let t0 = 10 * NANOS_PER_SEC;
    assert!(s.authorize_at("w", t0).is_ok());
    assert!(matches!(s.authorize_at("w", t0 + NANOS_PER_SEC), Err(ApiError::RateLimited)));
    // Two whole seconds after the window opened, a fresh one starts.
    assert!(s.authorize_at("w", t0 + 2 * NANOS_PER_SEC).is_ok());
    assert!(matches!(s.authorize_at("w", t0 + 3 * NANOS_PER_SEC), Err(ApiError::RateLimited)));
}

#[test]
fn viewers_expire_after_their_ttl() {
    let mut s = AppState::new(None);
    let ttl = s.settings().online_ttl_secs as u64 * NANOS_PER_SEC;
    s.online_seen_at("a", 0);
    s.online_seen_at("b", 5 * NANOS_PER_SEC);
    s.online_seen_at("a", 6 * NANOS_PER_SEC);
    assert_eq!(s.online_at(7 * NANOS_PER_SEC), 2);
    assert_eq!(s.online_at(5 * NANOS_PER_SEC + ttl - 1), 2);
    assert_eq!(s.online_at(5 * NANOS_PER_SEC + ttl), 1);
    s.online_gone("a");
    assert_eq!(s.online_at(5 * NANOS_PER_SEC + ttl), 0);
}

#[test]
fn admin_sessions_live_for_an_hour() {
    let mut s = AppState::new(Some("hunter2".to_string()));
    assert!(s.admin_enabled());
    assert!(s.admin_login_at("wrong", 0).is_none());
    let sid = s.admin_login_at("hunter2", 0).expect("right password");
    assert_eq!(sid.len(), 72);
    assert!(s.admin_check_at(&sid, 1));
    assert!(!s.admin_check_at("", 1));
    assert!(!s.admin_check_at("other", 1));
    let hour = ADMIN_SESSION_TTL_SECS * NANOS_PER_SEC;
    assert!(s.admin_check_at(&sid, hour - 1));
    assert!(!s.admin_check_at(&sid, hour));
    let sid2 = s.admin_login("hunter2").unwrap();
    assert!(s.admin_check(&sid2));
    s.admin_logout(&sid2);
    assert!(!s.admin_check(&sid2));
}

#[test]
fn empty_password_disables_admin() {
    let mut s = AppState::new(Some(String::new()));
    assert!(!s.admin_enabled());
    assert!(s.admin_login("").is_none());
}

#[test]
fn sanitizing_clamps_every_value() {
    let raw = Settings {
        rate_limit: 5_000_000,
        rate_window_secs: 0,
        register_delay_secs: 999,
        token_ttl_secs: 1,
        online_heartbeat_secs: 1000,
        online_ttl_secs: -4,
        paused: true,
    };
    let s = raw.sanitized();
    assert_eq!(
        s,
        Settings {
            rate_limit: 1_000_000,
            rate_window_secs: 1,
            register_delay_secs: 60,
            token_ttl_secs: 60,
            online_heartbeat_secs: 300,
            online_ttl_secs: 2,
            paused: true,
        }
    );
    assert_eq!(Settings::default().sanitized(), Settings::default());
}

#[test]
fn shared_store_answers_are_read() {
    assert!(rate_verdict(3, 3).is_ok());
    assert!(matches!(rate_verdict(4, 3), Err(ApiError::RateLimited)));
    assert!(matches!(rate_verdict(-1, 3), Err(ApiError::RateLimited)));
    assert!(starts_window(1) && !starts_window(2));
    assert_eq!(stored_counter(Some(-5)), 0);
    assert_eq!(stored_counter(Some(12)), 12);
    assert_eq!(stored_counter(None), 0);
    assert_eq!(presence_cutoff(100, 15), 85);
    assert_eq!(presence_cutoff(i64::MIN, 1), i64::MAX);
    assert_eq!(token_key("abc"), "token:abc");
    assert_eq!(rate_key("abc"), "rate:abc");
    assert_eq!(session_key("s1"), "admin:session:s1");
}

#[test]
fn identifiers_have_uuid_shape() {
    let t = new_token();
    assert_eq!(t.len(), 36);
    assert_eq!(t.matches('-').count(), 4);
    let s = new_session_id();
    assert_eq!(s.len(), 72);
    assert_ne!(new_token(), new_token());
}

#[test]
fn clock_before_epoch_reads_zero() {
    assert_eq!(secs_or_zero(None), 0);
    assert_eq!(secs_or_zero(Some(42)), 42);
    assert_eq!(secs_or_zero(Some(u64::MAX)), u64::MAX as i64);
}

#[test]
fn registered_tokens_may_paint() {
    let mut s = AppState::new(None);
    let t = s.register_token();
    assert_eq!(t.len(), 36);
    assert!(s.authorize(&t).is_ok());
    assert_eq!(s.stats_at(0).tokens_issued, 1);
}

#[test]
fn clock_readings_are_converted() {
    assert_eq!(nanos_u64((1u128 << 64) + 5), 5);
    assert_eq!(nanos_u64(42), 42);
    assert_eq!(saturate_nanos(u128::MAX), u64::MAX);
    assert_eq!(saturate_nanos(7), 7);
    assert_eq!(unsigned_secs_or_zero(None), 0);
    assert_eq!(unsigned_secs_or_zero(Some(9)), 9);
}

#[test]
fn tokens_are_version_4_uuids() {
    for _ in 0..20 {
        let t = new_token();
        let c: Vec<char> = t.chars().collect();
        assert_eq!(c[14], '4');
        assert!(matches!(c[19], '8' | '9' | 'a' | 'b'));
        assert!(t.chars().all(|ch| ch == '-' || ch.is_ascii_digit() || ('a'..='f').contains(&ch)));
    }
}

#[test]
fn refusals_have_their_status() {
    assert_eq!(status_code(&ApiError::Pixel(PixelError::InvalidColor("x".to_string()))), 400);
    assert_eq!(status_code(&ApiError::Unauthorized), 401);
    assert_eq!(status_code(&ApiError::RateLimited), 429);
    assert_eq!(status_code(&ApiError::Paused), 503);
}
