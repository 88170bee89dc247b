use pixelflux::push::{after_pass, PassAction, PassEvent};
use pixelflux::push::{check_tokens, count_targets};
use pixelflux::cache::{cached_tokens, kept_positions, saved_cache_text};
use pixelflux::push::palette_colours;
use pixelflux::push::{
    cache_cutoff, check_canvas_meta, token_plan, composite_srgb, diff_would_panic, fresh_cached_tokens, hex_split_would_panic,
    parse_hex, pending_pixels, pool_intervals, premultiply, pseudo_name,
    shard_ranges, to_hex, tokens_needed, true_colour_grid, unpremultiply, unpremultiply_channel,
    CachedEntry, MAX_AUTO_TOKENS, TOKEN_CACHE_TTL_SECS,
};
use std::sync::atomic::AtomicU64;

#[test]
fn hex_text_is_lowercase_and_padded() {
    assert_eq!(to_hex([255, 0, 16]), "ff0010");
    assert_eq!(to_hex([0, 0, 0]), "000000");
    assert_eq!(to_hex([0xab, 0xcd, 0xef]), "abcdef");
}

#[test]
fn parse_hex_accepts_hash_case_and_spaces() {
    assert_eq!(parse_hex("#FF0010"), Ok([255, 0, 16]));
    assert_eq!(parse_hex("  00ff00 "), Ok([0, 255, 0]));
    assert_eq!(parse_hex("##abcdef"), Ok([0xab, 0xcd, 0xef]));
    // Each pair is read like `u8::from_str_radix`, which takes a leading `+`.
    assert_eq!(parse_hex("+f+f+f"), Ok([15, 15, 15]));
}

#[test]
fn parse_hex_rejects_bad_colours() {
    assert_eq!(parse_hex("12345"), Err("bad hex colour: '12345'".to_string()));
    assert_eq!(parse_hex(" #gg0000"), Err("bad hex colour: 'gg0000'".to_string()));
    assert_eq!(parse_hex("-f0000"), Err("bad hex colour: '-f0000'".to_string()));
    assert_eq!(parse_hex(""), Err("bad hex colour: ''".to_string()));
}

#[test]
fn hex_round_trips() {
    for c in [[1u8, 2, 3], [255, 254, 0], [0x10, 0x9f, 0xa0]] {
        assert_eq!(parse_hex(&to_hex(c)), Ok(c));
    }
}

#[test]
fn split_through_a_character_is_detected() {
    // Six bytes whose second pair starts inside a two-byte character.
    assert!(hex_split_would_panic("aé012"));
    assert!(!hex_split_would_panic("abcdef"));
    assert!(!hex_split_would_panic("éé"));
}

#[test]
fn unpremultiply_channel_scales_and_caps() {
    assert_eq!(unpremultiply_channel(100, 0), None);
    assert_eq!(unpremultiply_channel(100, 255), Some(100));
    assert_eq!(unpremultiply_channel(64, 128), Some(127));
    assert_eq!(unpremultiply_channel(200, 100), Some(255));
}

#[test]
fn composite_blends_over_background() {
    assert_eq!(composite_srgb([10, 20, 30, 255], [255, 255, 255]), [10, 20, 30]);
    assert_eq!(composite_srgb([10, 20, 30, 0], [1, 2, 3]), [1, 2, 3]);
    // (200 * 128 + 0 * 127) / 255 = 100
    assert_eq!(composite_srgb([200, 0, 0, 128], [0, 255, 0]), [100, 127, 0]);
}

#[test]
fn premultiply_and_back() {
    let mut px = vec![200u8, 100, 50, 128, 9, 9, 9, 0];
    premultiply(&mut px);
    assert_eq!(px, vec![100, 50, 25, 128, 0, 0, 0, 0]);
    unpremultiply(&mut px);
    // 100*255/128 = 199, 50*255/128 = 99, 25*255/128 = 49; alpha 0 stays.
    assert_eq!(px, vec![199, 99, 49, 128, 0, 0, 0, 0]);
}

#[test]
fn true_colour_grid_skips_transparent_pixels() {
    let px = vec![255u8, 0, 0, 255, 0, 255, 0, 10, 0, 0, 255, 200];
    let grid = true_colour_grid(&px, true, 128, [255, 255, 255]);
    assert_eq!(grid, vec![Some([255, 0, 0]), None, Some([55, 55, 255])]);
    let flat = true_colour_grid(&px, false, 128, [0, 0, 0]);
    assert_eq!(flat[1], Some([0, 10, 0]));
}

#[test]
fn token_count_is_chosen() {
    assert_eq!(tokens_needed(Some(3), 0, 1000, 10), 3);
    assert_eq!(tokens_needed(None, 2, 1000, 10), 0);
    assert_eq!(tokens_needed(None, 0, 10_000, 4096), 3);
    assert_eq!(tokens_needed(None, 0, 0, 4096), 1);
    assert_eq!(tokens_needed(None, 0, 1_000_000, 10), MAX_AUTO_TOKENS);
    assert_eq!(tokens_needed(None, 0, 5, 0), 5);
}

#[test]
fn pool_keeps_a_slot_of_margin() {
    assert_eq!(pool_intervals(1, 4096, false), Ok(4095));
    assert_eq!(pool_intervals(1, 2, false), Ok(1));
    assert_eq!(pool_intervals(1, 1, false), Ok(1));
    assert_eq!(pool_intervals(0, 10, false), Err("no paint tokens available".to_string()));
    assert_eq!(
        pool_intervals(2, 0, false),
        Err("--rate and --rate-window must be >= 1".to_string())
    );
    assert_eq!(
        pool_intervals(2, 5, true),
        Err("--rate and --rate-window must be >= 1".to_string())
    );
}

#[test]
fn work_is_sharded_in_chunks() {
    assert_eq!(shard_ranges(0, 4), vec![]);
    assert_eq!(shard_ranges(10, 3), vec![(0, 4), (4, 8), (8, 10)]);
    assert_eq!(shard_ranges(2, 4), vec![(0, 1), (1, 2)]);
    // No connection, no shard (the chunk size still counts one).
    assert_eq!(shard_ranges(5, 0), vec![]);
    assert_eq!(shard_ranges(5, 1), vec![(0, 5)]);
}

#[test]
fn only_differing_cells_are_pending() {
    let grid = vec![Some([255, 0, 0]), None, Some([0, 0, 0]), Some([1, 2, 3])];
    let pixels = "ff0000ffffff000000zzzzzz";
    assert!(!diff_would_panic(&grid, pixels));
    assert_eq!(pending_pixels(&grid, pixels, 2), vec![(1, 1, [1, 2, 3])]);
    // A short canvas text leaves the missing cells pending.
    assert_eq!(
        pending_pixels(&grid, "ff0000", 3),
        vec![(2, 0, [0, 0, 0]), (0, 1, [1, 2, 3])]
    );
}

#[test]
fn stale_cached_tokens_are_dropped() {
    assert_eq!(cache_cutoff(100), 0);
    assert_eq!(cache_cutoff(TOKEN_CACHE_TTL_SECS + 5), 5);
    let entries = vec![
        CachedEntry { registered_at: 10, token: Some("a".to_string()) },
        CachedEntry { registered_at: 2, token: Some("b".to_string()) },
        CachedEntry { registered_at: 50, token: None },
        CachedEntry { registered_at: 7, token: Some("c".to_string()) },
    ];
    assert_eq!(fresh_cached_tokens(&entries, 5), vec!["a".to_string(), "c".to_string()]);
}

#[test]
fn pseudo_names_are_prefixed_hex() {
    assert_eq!(pseudo_name(0, 0), "pixelpush-00000000");
    assert_eq!(pseudo_name(0xdead_beef, 0), "pixelpush-deadbeef");
    // 1 * 0x9E3779B97F4A7C15 keeps the low 32 bits 0x7f4a7c15.
    assert_eq!(pseudo_name(0, 1), "pixelpush-7f4a7c15");
    let counter = AtomicU64::new(0);
    let name = pixelflux::push::random_pseudo(&counter);
    assert!(name.starts_with("pixelpush-"));
    assert_eq!(name.len(), 18);
}

#[test]
fn canvas_meta_is_checked() {
    assert_eq!(check_canvas_meta(200, 200, false, 0), Ok(()));
    assert_eq!(check_canvas_meta(200, 200, true, 16), Ok(()));
    assert_eq!(check_canvas_meta(0, 200, true, 0), Err("canvas reported an empty grid".to_string()));
    assert_eq!(
        check_canvas_meta(5, 5, true, 0),
        Err("canvas enforces a palette but reported none".to_string())
    );
}

#[test]
fn tokens_come_from_the_command_line_or_the_cache() {
    let s = |v: &[&str]| v.iter().map(|t| t.to_string()).collect::<Vec<_>>();
    assert_eq!(token_plan(s(&["x"]), s(&["a", "b"]), 3), (s(&["x"]), 0));
    assert_eq!(token_plan(vec![], s(&["a", "b", "c"]), 2), (s(&["a", "b"]), 0));
    assert_eq!(token_plan(vec![], s(&["a"]), 3), (s(&["a"]), 2));
    assert_eq!(token_plan(vec![], vec![], 0), (vec![], 0));
}

#[test]
fn passes_end_or_repeat() {
    assert!(matches!(
        after_pass(true, 100, PassEvent::CanvasUnavailable("down".to_string())),
        PassAction::Retry { after_ms: 250 }
    ));
    assert!(matches!(
        after_pass(true, 1000, PassEvent::CanvasUnavailable("down".to_string())),
        PassAction::Retry { after_ms: 1000 }
    ));
    match after_pass(false, 1000, PassEvent::CanvasUnavailable("down".to_string())) {
        PassAction::Fail(e) => assert_eq!(e, "down"),
        _ => panic!("expected a failure"),
    }
    assert!(matches!(
        after_pass(true, 700, PassEvent::Painted { pending: 10, failed: 3 }),
        PassAction::Next { fixed: 7, after_ms: 700 }
    ));
    assert!(matches!(
        after_pass(false, 700, PassEvent::Painted { pending: 2, failed: 5 }),
        PassAction::Finish { fixed: 0 }
    ));
}

#[test]
fn targets_and_tokens_are_counted() {
    assert_eq!(count_targets(&vec![Some([1, 2, 3]), None, Some([0, 0, 0])]), 2);
    assert_eq!(count_targets(&vec![]), 0);
    assert_eq!(check_tokens(2), Ok(()));
    assert_eq!(
        check_tokens(0),
        Err("no paint tokens available; pass --token or allow --tokens 1".to_string())
    );
}

#[test]
fn token_cache_is_read_and_merged() {
    let now = TOKEN_CACHE_TTL_SECS + 100;
    let text = r#"{"h":[{"token":"old","registered_at":5},{"token":"fresh","registered_at":150},
        {"token":7,"registered_at":200},{"token":"nostamp"}],"other":[{"token":"x","registered_at":1}]}"#;
    assert_eq!(cached_tokens(Some(text.to_string()), "h", now), vec!["fresh".to_string()]);
    assert_eq!(cached_tokens(Some("not json".to_string()), "h", now), Vec::<String>::new());
    assert_eq!(cached_tokens(None, "h", now), Vec::<String>::new());
    assert_eq!(cached_tokens(Some(text.to_string()), "missing", now), Vec::<String>::new());

    let saved = saved_cache_text(Some(text.to_string()), "h", &vec!["new".to_string()], now).unwrap();
    assert_eq!(
        cached_tokens(Some(saved.clone()), "h", now),
        vec!["fresh".to_string(), "new".to_string()]
    );
    // Other hosts are left alone.
    assert_eq!(cached_tokens(Some(saved), "other", 50), vec!["x".to_string()]);
    // A fresh cache starts from nothing; a cache that is not an object cannot take a host.
    let first = saved_cache_text(None, "h", &vec!["a".to_string()], now).unwrap();
    assert_eq!(cached_tokens(Some(first), "h", now), vec!["a".to_string()]);
    assert_eq!(saved_cache_text(Some("[1]".to_string()), "h", &vec![], now), None);
    assert!(saved_cache_text(Some("null".to_string()), "h", &vec![], now).is_some());
}

#[test]
fn kept_cache_entries_stay_as_they_were() {
    let now = TOKEN_CACHE_TTL_SECS + 100;
    let text = r#"{"h":[{"token":"keep","registered_at":200,"extra":[1,2]},{"token":"old","registered_at":1}]}"#;
    let saved = saved_cache_text(Some(text.to_string()), "h", &vec!["n".to_string()], now).unwrap();
    assert!(saved.contains("\"extra\""));
    assert!(!saved.contains("\"old\""));
    assert_eq!(cached_tokens(Some(saved), "h", now), vec!["keep".to_string(), "n".to_string()]);
    let entries = vec![
        CachedEntry { registered_at: 10, token: None },
        CachedEntry { registered_at: 2, token: None },
        CachedEntry { registered_at: 50, token: Some("t".to_string()) },
    ];
    assert_eq!(kept_positions(&entries, 5), vec![0, 2]);
}

#[test]
fn palette_drops_unreadable_entries() {
    let names = vec!["#ffffff".to_string(), "nope".to_string(), "e50000".to_string()];
    assert_eq!(palette_colours(&names), vec![[255, 255, 255], [0xe5, 0, 0]]);
}
