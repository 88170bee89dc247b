use pixelflux::canvas::{HEIGHT, WIDTH};
use pixelflux::color::BYTES_PER_PIXEL;
use pixelflux::errors::{ApiError, PixelError};
use pixelflux::events::{drain_to_batch, PixelBuffer};
use pixelflux::settings::DEFAULT_RATE_LIMIT;
use pixelflux::state::AppState;

#[test]
fn canvas_starts_blank() {
    let state = AppState::new(None);
    let canvas = state.canvas();
    assert_eq!(canvas.len(), WIDTH * HEIGHT * BYTES_PER_PIXEL);
    assert!(canvas.chars().all(|c| c == 'f')); // white "ffffff" per pixel
}

#[test]
fn set_pixel_updates_the_canvas() {
    let mut state = AppState::new(None);
    assert!(state.set_pixel(1, 0, "ff0000").is_ok()); // pixel 1 -> red
    assert!(state.set_pixel(0, 1, "00ff00").is_ok()); // row below -> green

    let canvas = state.canvas();
    assert_eq!(&canvas[BYTES_PER_PIXEL..BYTES_PER_PIXEL * 2], "ff0000");
    let row = WIDTH * BYTES_PER_PIXEL;
    assert_eq!(&canvas[row..row + BYTES_PER_PIXEL], "00ff00");
}

#[test]
fn set_pixel_normalises_and_rejects() {
    let mut state = AppState::new(None);
    // A leading '#' and uppercase are accepted and normalised.
    assert!(state.set_pixel(0, 0, "#AABBCC").is_ok());
    assert_eq!(&state.canvas()[0..BYTES_PER_PIXEL], "aabbcc");
    // Invalid inputs are rejected.
    assert!(state.set_pixel(WIDTH, 0, "ffffff").is_err()); // x out of bounds
    assert!(state.set_pixel(0, HEIGHT, "ffffff").is_err()); // y out of bounds
    assert!(state.set_pixel(0, 0, "12345").is_err()); // wrong length
    assert!(state.set_pixel(0, 0, "gggggg").is_err()); // non-hex
}

#[test]
fn drain_dedups_and_formats() {
    // Empty buffer -> nothing to broadcast.
    assert_eq!(drain_to_batch(PixelBuffer::new()), None);

    // One pixel -> a single-element JSON array.
    let mut one = PixelBuffer::new();
    one.insert(5u16, 6u16, "abcdef".to_string());
    assert_eq!(
        drain_to_batch(one),
        Some(r#"[{"x":5,"y":6,"color":"abcdef"}]"#.to_string())
    );

    // Same cell repainted in the window -> last write wins (one entry).
    let mut dup = PixelBuffer::new();
    dup.insert(1u16, 2u16, "111111".to_string());
    dup.insert(1u16, 2u16, "222222".to_string());
    assert_eq!(
        drain_to_batch(dup),
        Some(r#"[{"x":1,"y":2,"color":"222222"}]"#.to_string())
    );
}

#[test]
fn painting_emits_a_batched_live_event() {
    let mut state = AppState::new(None);
    assert!(state.set_pixel(3, 4, "e50000").is_ok());
    // Updates are coalesced: the next flush carries them as a JSON array.
    let msg = state.take_batch().expect("a batch should be flushed");
    assert_eq!(msg, r#"[{"x":3,"y":4,"color":"e50000"}]"#);
}

#[test]
fn token_is_required_and_rate_limited() {
    let mut state = AppState::new(None);
    // No token / unknown token are rejected.
    assert!(matches!(state.authorize(""), Err(ApiError::Unauthorized)));
    assert!(matches!(state.authorize("forged"), Err(ApiError::Unauthorized)));
    // A known token is accepted up to the budget, then rate-limited.
    state.store_token("t");
    for _ in 0..DEFAULT_RATE_LIMIT {
        assert!(state.authorize("t").is_ok());
    }
    assert!(matches!(state.authorize("t"), Err(ApiError::RateLimited)));
}

#[test]
fn settings_update_changes_rate_limit() {
    let mut state = AppState::new(None);
    // Tighten the budget to 2 paints per window at runtime.
    let mut s = state.settings();
    s.rate_limit = 2;
    let applied = state.update_settings(s);
    assert_eq!(applied.rate_limit, 2);

    state.store_token("u");
    assert!(state.authorize("u").is_ok());
    assert!(state.authorize("u").is_ok());
    assert!(matches!(state.authorize("u"), Err(ApiError::RateLimited)));
}

#[test]
fn settings_are_clamped() {
    let mut state = AppState::new(None);
    let mut s = state.settings();
    s.rate_limit = 0; // invalid -> clamped to >= 1
    s.rate_window_secs = 0; // invalid -> clamped to >= 1
    let applied = state.update_settings(s);
    assert!(applied.rate_limit >= 1);
    assert!(applied.rate_window_secs >= 1);
}

#[test]
fn maintenance_mode_blocks_painting() {
    let mut state = AppState::new(None);
    state.store_token("m");
    assert!(state.authorize("m").is_ok());
    let mut s = state.settings();
    s.paused = true;
    state.update_settings(s);
    assert!(matches!(state.authorize("m"), Err(ApiError::Paused)));
}

#[test]
fn admin_is_disabled_without_password() {
    // No admin password -> admin features are off.
    let mut state = AppState::new(None);
    assert!(!state.admin_enabled());
    assert!(state.admin_login("anything").is_none());
    assert!(!state.admin_check("whatever"));
}

#[test]
fn out_of_bounds_error_carries_the_request() {
    let mut state = AppState::new(None);
    match state.set_pixel(WIDTH, 7, "ffffff") {
        Err(PixelError::OutOfBounds { x, y, width, height }) => {
            assert_eq!((x, y, width, height), (WIDTH, 7, WIDTH, HEIGHT));
        }
        other => panic!("unexpected {other:?}"),
    }
    match state.set_pixel(1, 1, " #zz0000 ") {
        Err(PixelError::InvalidColor(c)) => assert_eq!(c, " #zz0000 "),
        other => panic!("unexpected {other:?}"),
    }
}
