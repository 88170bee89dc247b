//! Properties that relate several operations of the library.

use vstd::prelude::*;
use crate::canvas::{
    CANVAS_LEN, HEIGHT, WIDTH, ascii_bytes, ascii_text, cell, event_text, lemma_offset_in_range,
    lemma_offsets_disjoint, offset, painted, quoted,
};
use crate::color::{BYTES_PER_PIXEL, is_canonical_color, normalized, normalized_is_idempotent};
use crate::events::{batch_text, cell_colors, distinct_cells, escape_char, json_escape, joined, same_cell, update_text};
use crate::push::{blend, hex2, hex_body, hex_split_panics, hex_text, hex_value, radix16_pair, digit_value};
use crate::state::{AppState, NANOS_PER_SEC, bump, buffer_after, rate_step};
use crate::strmap::{elapsed, recent};
use crate::settings::sanitized_spec;

verus! {

/// Painting a cell makes it hold the colour and leaves every other cell as
/// it was (what a read gives back after a write).
pub proof fn painted_cell_reads_back(canvas: Seq<u8>, x: int, y: int, color: Seq<char>, x2: int, y2: int)
    requires
        canvas.len() == CANVAS_LEN,
        0 <= x < WIDTH,
        0 <= y < HEIGHT,
        0 <= x2 < WIDTH,
        0 <= y2 < HEIGHT,
        color.len() == BYTES_PER_PIXEL,
    ensures
        painted(canvas, offset(x, y), color).len() == CANVAS_LEN,
        cell(painted(canvas, offset(x, y), color), x, y) == ascii_bytes(color),
        (x2 != x || y2 != y) ==> cell(painted(canvas, offset(x, y), color), x2, y2) == cell(canvas, x2, y2),
{
    lemma_offset_in_range(x, y);
    lemma_offset_in_range(x2, y2);
    let p = painted(canvas, offset(x, y), color);
    assert(cell(p, x, y) =~= ascii_bytes(color));
    if x2 != x || y2 != y {
        lemma_offsets_disjoint(x, y, x2, y2);
        assert(cell(p, x2, y2) =~= cell(canvas, x2, y2));
    }
}

/// The text of a canonical colour reads back as that colour.
pub proof fn canonical_cell_text(color: Seq<char>)
    requires
        is_canonical_color(color),
    ensures
        ascii_text(ascii_bytes(color)) == color,
{
    assert forall|i: int| 0 <= i < color.len() implies ((color[i] as u8) as char) == color[i] by {
        assert('0' <= color[i] <= '9' || 'a' <= color[i] <= 'f');
    }
    assert(ascii_text(ascii_bytes(color)) =~= color);
}

/// The text of cell `(x, y)`.
pub open spec fn cell_text(canvas: Seq<u8>, x: int, y: int) -> Seq<char> {
    ascii_text(canvas).subrange(offset(x, y), offset(x, y) + BYTES_PER_PIXEL)
}

/// Reading the canvas after `set_pixel(x, y, color)` succeeded gives the
/// colour in canonical form at the painted cell, and what was there before
/// at every other cell.
pub proof fn paint_reads_back(canvas: Seq<u8>, x: int, y: int, color: Seq<char>, x2: int, y2: int)
    requires
        canvas.len() == CANVAS_LEN,
        0 <= x < WIDTH,
        0 <= y < HEIGHT,
        0 <= x2 < WIDTH,
        0 <= y2 < HEIGHT,
        normalized(color) is Some,
    ensures
        cell_text(painted(canvas, offset(x, y), normalized(color)->0), x, y) == normalized(color)->0,
        (x2 != x || y2 != y) ==> cell_text(painted(canvas, offset(x, y), normalized(color)->0), x2, y2)
            == cell_text(canvas, x2, y2),
{
    let c = normalized(color)->0;
    normalized_is_idempotent(color);
    painted_cell_reads_back(canvas, x, y, c, x2, y2);
    canonical_cell_text(c);
    lemma_offset_in_range(x, y);
    lemma_offset_in_range(x2, y2);
    let p = painted(canvas, offset(x, y), c);
    assert(cell_text(p, x, y) =~= ascii_text(cell(p, x, y)));
    assert(cell_text(p, x2, y2) =~= ascii_text(cell(p, x2, y2)));
    assert(cell_text(canvas, x2, y2) =~= ascii_text(cell(canvas, x2, y2)));
}

/// Repainting a pending cell keeps only its last colour; other cells keep
/// theirs, and no cell appears twice.
pub proof fn buffer_keeps_last_color(
    s: Seq<(u16, u16, Seq<char>)>,
    x: u16,
    y: u16,
    c: Seq<char>,
    r: Seq<(u16, u16, Seq<char>)>,
)
    requires
        distinct_cells(s),
        buffer_after(s, x, y, c, r),
    ensures
        distinct_cells(r),
        cell_colors(r) == cell_colors(s).insert((x, y), c),
{
    if exists|i: int| 0 <= i < s.len() && same_cell(#[trigger] s[i], x, y) {
        let i = choose|i: int| 0 <= i < s.len() && same_cell(#[trigger] s[i], x, y) && r == s.update(i, (x, y, c));
        assert forall|a: int, b: int| 0 <= a < b < r.len() implies !same_cell(#[trigger] r[a], #[trigger] r[b].0, r[b].1) by {
            assert(!same_cell(s[a], s[b].0, s[b].1));
        }
        assert forall|k: (u16, u16)| #![auto] cell_colors(r).contains_key(k) == cell_colors(s).insert((x, y), c).contains_key(k) by {
            if cell_colors(s).contains_key(k) {
                let j = choose|j: int| 0 <= j < s.len() && #[trigger] same_cell(s[j], k.0, k.1);
                assert(same_cell(r[j], k.0, k.1));
            }
            if k == (x, y) {
                assert(same_cell(r[i], k.0, k.1));
            }
        }
        assert forall|k: (u16, u16)| #![auto] cell_colors(r).contains_key(k) implies cell_colors(r)[k] == cell_colors(s).insert((x, y), c)[k] by {
            let j = choose|j: int| 0 <= j < r.len() && #[trigger] same_cell(r[j], k.0, k.1);
            if k == (x, y) {
                if j != i {
                    assert(!same_cell(s[if j < i { j } else { i }], s[if j < i { i } else { j }].0, s[if j < i { i } else { j }].1));
                }
            } else {
                assert(same_cell(s[j], k.0, k.1));
                let j2 = choose|j2: int| 0 <= j2 < s.len() && #[trigger] same_cell(s[j2], k.0, k.1);
                if j2 != j {
                    assert(!same_cell(s[if j < j2 { j } else { j2 }], s[if j < j2 { j2 } else { j }].0, s[if j < j2 { j2 } else { j }].1));
                }
            }
        }
        assert(cell_colors(r) =~= cell_colors(s).insert((x, y), c));
    } else {
        assert(r == s.push((x, y, c)));
        assert forall|a: int, b: int| 0 <= a < b < r.len() implies !same_cell(#[trigger] r[a], #[trigger] r[b].0, r[b].1) by {
            if b < s.len() {
                assert(!same_cell(s[a], s[b].0, s[b].1));
            } else {
                assert(r[a] == s[a]);
            }
        }
        assert forall|k: (u16, u16)| #![auto] cell_colors(r).contains_key(k) == cell_colors(s).insert((x, y), c).contains_key(k) by {
            if cell_colors(s).contains_key(k) {
                let j = choose|j: int| 0 <= j < s.len() && #[trigger] same_cell(s[j], k.0, k.1);
                assert(same_cell(r[j], k.0, k.1));
            }
            if k == (x, y) {
                assert(same_cell(r[s.len() as int], k.0, k.1));
            }
            if cell_colors(r).contains_key(k) && k != (x, y) {
                let j = choose|j: int| 0 <= j < r.len() && #[trigger] same_cell(r[j], k.0, k.1);
                assert(same_cell(s[j], k.0, k.1));
            }
        }
        assert forall|k: (u16, u16)| #![auto] cell_colors(r).contains_key(k) implies cell_colors(r)[k] == cell_colors(s).insert((x, y), c)[k] by {
            let j = choose|j: int| 0 <= j < r.len() && #[trigger] same_cell(r[j], k.0, k.1);
            if k == (x, y) {
                if j < s.len() {
                    assert(same_cell(s[j], x, y));
                }
            } else {
                assert(same_cell(s[j], k.0, k.1));
                let j2 = choose|j2: int| 0 <= j2 < s.len() && #[trigger] same_cell(s[j2], k.0, k.1);
                if j2 != j {
                    assert(!same_cell(s[if j < j2 { j } else { j2 }], s[if j < j2 { j2 } else { j }].0, s[if j < j2 { j2 } else { j }].1));
                }
            }
        }
        assert(cell_colors(r) =~= cell_colors(s).insert((x, y), c));
    }
}

proof fn lemma_escape_canonical(c: Seq<char>)
    requires
        forall|i: int| 0 <= i < c.len() ==> ('0' <= #[trigger] c[i] <= '9' || 'a' <= c[i] <= 'f'),
    ensures
        json_escape(c) == c,
    decreases c.len(),
{
    if c.len() > 0 {
        let d = c.drop_last();
        assert forall|i: int| 0 <= i < d.len() implies ('0' <= #[trigger] d[i] <= '9' || 'a' <= d[i] <= 'f') by {
            assert(d[i] == c[i]);
        }
        lemma_escape_canonical(d);
        assert(escape_char(c.last()) == seq![c.last()]);
        assert(c =~= d.push(c.last()));
        assert(d + seq![c.last()] =~= d.push(c.last()));
    }
}

/// A single painted cell flushes as a one-element array holding exactly the
/// message that was published for the paint.
pub proof fn single_paint_batch(x: u16, y: u16, color: Seq<char>)
    requires
        is_canonical_color(color),
    ensures
        batch_text(seq![(x, y, color)]) == seq!['['] + event_text(x as nat, y as nat, quoted(color)) + seq![']'],
{
    lemma_escape_canonical(color);
    let s = seq![(x, y, color)];
    assert(joined(s) == update_text(s[0]));
}

/// Paints counted at time offsets, starting from no entry: the state of a
/// token's budget after each of `times` in turn.
pub open spec fn counts_after(entry: Option<(u64, u64)>, times: Seq<u64>, window_secs: u64) -> Option<(u64, u64)>
    decreases times.len(),
{
    if times.len() == 0 {
        entry
    } else {
        counts_after(Some(rate_step(entry, times[0], window_secs)), times.drop_first(), window_secs)
    }
}

/// Within one window, the budget counts every paint: after `k` paints at
/// times within `window_secs` of the first, the count is `k` and the window
/// still starts at the first. So the paint numbered `k` is accepted exactly
/// when `k <= rate_limit`.
pub proof fn paints_within_window_are_counted(entry: Option<(u64, u64)>, start: u64, times: Seq<u64>, window_secs: u64)
    requires
        window_secs >= 1,
        entry is None || (entry matches Some(e) && e.1 == start && e.0 as int + times.len() < u64::MAX),
        times.len() < u64::MAX,
        entry is None ==> times.len() > 0 && times[0] == start,
        forall|i: int| 0 <= i < times.len() ==> start <= #[trigger] times[i] && (times[i] - start) / (NANOS_PER_SEC as int) < window_secs,
    ensures
        counts_after(entry, times, window_secs) == Some((((match entry { Some(e) => e.0 as int, None => 0 }) + times.len()) as u64, start)),
    decreases times.len(),
{
    if times.len() > 0 {
        let t = times[0];
        assert(start <= t && (t - start) / (NANOS_PER_SEC as int) < window_secs);
        let e2 = rate_step(entry, t, window_secs);
        match entry {
            Some(e) => {
                assert(elapsed(e.1, t) == t - start);
                assert(e2 == ((e.0 + 1) as u64, start));
            },
            None => {
                assert(elapsed(t, t) == 0);
                assert(e2 == (1u64, start));
            },
        }
        let rest = times.drop_first();
        assert forall|i: int| 0 <= i < rest.len() implies start <= #[trigger] rest[i] && (rest[i] - start) / (NANOS_PER_SEC as int) < window_secs by {
            assert(rest[i] == times[i + 1]);
        }
        paints_within_window_are_counted(Some(e2), start, rest, window_secs);
    }
}

/// A paint after the window has run out starts a fresh window with a count
/// of one.
pub proof fn window_restarts(entry: (u64, u64), now: u64, window_secs: u64)
    requires
        elapsed(entry.1, now) / (NANOS_PER_SEC as int) >= window_secs,
    ensures
        rate_step(Some(entry), now, window_secs) == (1u64, now),
{
}

/// An entry stamped at `t0` is still there at `t1` exactly while less than
/// `ttl` has passed; an entry that was removed is gone. (Viewers and admin
/// sessions.)
pub proof fn recent_entries(m: Map<Seq<char>, u64>, k: Seq<char>, t0: u64, t1: u64, ttl: u64)
    ensures
        recent(m.insert(k, t0), t1, ttl).contains_key(k) <==> elapsed(t0, t1) < ttl,
        !recent(m.remove(k), t1, ttl).contains_key(k),
{
}

proof fn lemma_hex_digit_round_trip(d: int)
    requires
        0 <= d < 16,
    ensures
        digit_value(crate::events::hex_lower(d) as u8) == Some(d as u8),
        (crate::events::hex_lower(d) as u32) < 0x80,
        crate::events::hex_lower(d) != '#',
        !crate::color::is_white_space(crate::events::hex_lower(d)),
{
}

/// Writing a colour as hex and reading it back gives the colour.
pub proof fn hex_round_trip(c: [u8; 3])
    ensures
        !hex_split_panics(hex_text(c)),
        hex_value(hex_text(c)) == Some(seq![c[0], c[1], c[2]]),
{
    let t = hex_text(c);
    assert(t.len() == 6);
    lemma_hex_digit_round_trip((c[0] / 16) as int);
    lemma_hex_digit_round_trip((c[0] % 16) as int);
    lemma_hex_digit_round_trip((c[1] / 16) as int);
    lemma_hex_digit_round_trip((c[1] % 16) as int);
    lemma_hex_digit_round_trip((c[2] / 16) as int);
    lemma_hex_digit_round_trip((c[2] % 16) as int);
    assert(t[0] == crate::events::hex_lower((c[0] / 16) as int));
    assert(t[1] == crate::events::hex_lower((c[0] % 16) as int));
    assert(t[2] == crate::events::hex_lower((c[1] / 16) as int));
    assert(t[3] == crate::events::hex_lower((c[1] % 16) as int));
    assert(t[4] == crate::events::hex_lower((c[2] / 16) as int));
    assert(t[5] == crate::events::hex_lower((c[2] % 16) as int));
    crate::color::lemma_no_trim_no_hash(t);
    assert(hex_body(t) == t);
    assert(vstd::utf8::is_ascii_chars(t));
    vstd::utf8::is_ascii_chars_encode_utf8(t);
    let b = vstd::utf8::encode_utf8(t);
    vstd::utf8::encode_utf8_valid_utf8(t);
    vstd::utf8::is_char_boundary_iff_not_is_continuation_byte(b, 2);
    vstd::utf8::is_char_boundary_iff_not_is_continuation_byte(b, 4);
    assert(b[0] == t[0] as u8);
    assert(b[1] == t[1] as u8);
    assert(b[2] == t[2] as u8);
    assert(b[3] == t[3] as u8);
    assert(b[4] == t[4] as u8);
    assert(b[5] == t[5] as u8);
    assert(radix16_pair(b[0], b[1]) == Some(c[0]));
    assert(radix16_pair(b[2], b[3]) == Some(c[1]));
    assert(radix16_pair(b[4], b[5]) == Some(c[2]));
}

/// Fully opaque pixels keep their colour; fully transparent ones take the
/// background's.
pub proof fn composite_extremes(fg: u8, bg: u8)
    ensures
        blend(fg, bg, 255) == fg,
        blend(fg, bg, 0) == bg,
{
    assert(fg * 255 + bg * (255 - 255) == fg * 255) by (nonlinear_arith);
    assert(fg * 0 + bg * (255 - 0) == bg * 255) by (nonlinear_arith);
    assert((fg * 255) / 255 == fg) by (nonlinear_arith);
    assert((bg * 255) / 255 == bg) by (nonlinear_arith);
}

proof fn lemma_trim_start_ascii(s: Seq<char>)
    requires
        vstd::utf8::is_ascii_chars(s),
    ensures
        vstd::utf8::is_ascii_chars(crate::color::trim_start(s)),
    decreases s.len(),
{
    if s.len() > 0 && crate::color::is_white_space(s[0]) {
        assert forall|i: int| 0 <= i < s.drop_first().len() implies '\0' <= #[trigger] s.drop_first()[i] <= '\u{7f}' by {
            assert(s.drop_first()[i] == s[i + 1]);
        }
        lemma_trim_start_ascii(s.drop_first());
    }
}

proof fn lemma_trim_end_ascii(s: Seq<char>)
    requires
        vstd::utf8::is_ascii_chars(s),
    ensures
        vstd::utf8::is_ascii_chars(crate::color::trim_end(s)),
    decreases s.len(),
{
    if s.len() > 0 && crate::color::is_white_space(s.last()) {
        assert forall|i: int| 0 <= i < s.drop_last().len() implies '\0' <= #[trigger] s.drop_last()[i] <= '\u{7f}' by {
            assert(s.drop_last()[i] == s[i]);
        }
        lemma_trim_end_ascii(s.drop_last());
    }
}

proof fn lemma_strip_hashes_ascii(s: Seq<char>)
    requires
        vstd::utf8::is_ascii_chars(s),
    ensures
        vstd::utf8::is_ascii_chars(crate::color::strip_hashes(s)),
    decreases s.len(),
{
    if s.len() > 0 && s[0] == '#' {
        assert forall|i: int| 0 <= i < s.drop_first().len() implies '\0' <= #[trigger] s.drop_first()[i] <= '\u{7f}' by {
            assert(s.drop_first()[i] == s[i + 1]);
        }
        lemma_strip_hashes_ascii(s.drop_first());
    }
}

/// `parse_hex` never cuts a character in two on ASCII text: its colour body
/// is ASCII too, one byte per character, so every byte starts a character.
pub proof fn ascii_colour_never_splits(s: Seq<char>)
    requires
        vstd::utf8::is_ascii_chars(s),
    ensures
        !hex_split_panics(s),
        vstd::utf8::encode_utf8(hex_body(s)).len() == hex_body(s).len(),
{
    lemma_trim_start_ascii(s);
    lemma_trim_end_ascii(crate::color::trim_start(s));
    lemma_strip_hashes_ascii(crate::color::trim(s));
    let t = hex_body(s);
    vstd::utf8::is_ascii_chars_encode_utf8(t);
    let b = vstd::utf8::encode_utf8(t);
    vstd::utf8::encode_utf8_valid_utf8(t);
    if b.len() == 6 {
        vstd::utf8::is_char_boundary_iff_not_is_continuation_byte(b, 2);
        vstd::utf8::is_char_boundary_iff_not_is_continuation_byte(b, 4);
        assert(t[2] as u8 == b[2]);
        assert(t[4] as u8 == b[4]);
        assert('\0' <= t[2] <= '\u{7f}');
        assert('\0' <= t[4] <= '\u{7f}');
    }
}

/// Viewer and session counts do not grow without new entries: pruning what
/// is left after a prune, at any later time, keeps at most as many.
pub proof fn pruning_never_grows(m: Map<Seq<char>, u64>, t1: u64, t2: u64, ttl: u64)
    requires
        m.dom().finite(),
    ensures
        recent(m, t1, ttl).dom().finite(),
        recent(recent(m, t1, ttl), t2, ttl).dom().finite(),
        recent(recent(m, t1, ttl), t2, ttl).dom().len() <= recent(m, t1, ttl).dom().len(),
{
    let a = recent(m, t1, ttl);
    let b = recent(a, t2, ttl);
    assert(a.dom().subset_of(m.dom()));
    vstd::set_lib::lemma_len_subset(a.dom(), m.dom());
    assert(b.dom().subset_of(a.dom()));
    vstd::set_lib::lemma_len_subset(b.dom(), a.dom());
}

/// Number of `true`s in `s`.
pub open spec fn count_true(s: Seq<bool>) -> nat
    decreases s.len(),
{
    if s.len() == 0 {
        0
    } else {
        count_true(s.drop_last()) + if s.last() {
            1nat
        } else {
            0nat
        }
    }
}

/// One operation's effect on the dashboard counters: each is bumped when the
/// operation painted a pixel or issued a token, and kept otherwise. A
/// successful `set_pixel` or `apply_paint` paints; `store_token` and
/// `register_token` issue; every other operation, and a refused paint, does
/// neither, as their contracts state.
pub open spec fn counters_step(pre: AppState, post: AppState, painted: bool, issued: bool) -> bool {
    &&& post.pixels_painted_view() == if painted {
        bump(pre.pixels_painted_view())
    } else {
        pre.pixels_painted_view()
    }
    &&& post.tokens_issued_view() == if issued {
        bump(pre.tokens_issued_view())
    } else {
        pre.tokens_issued_view()
    }
}

proof fn lemma_bump_mod(n: nat)
    ensures
        bump((n % 0x1_0000_0000_0000_0000) as u64) == (n + 1) % 0x1_0000_0000_0000_0000,
{
    let m: int = 0x1_0000_0000_0000_0000;
    vstd::arithmetic::div_mod::lemma_mod_pos_bound(n as int, m);
    vstd::arithmetic::div_mod::lemma_add_mod_noop(n as int, 1, m);
    let r = n as int % m;
    if r + 1 < m {
        vstd::arithmetic::div_mod::lemma_small_mod((r + 1) as nat, m as nat);
    } else {
        vstd::arithmetic::div_mod::lemma_mod_add_multiples_vanish(0, m);
        vstd::arithmetic::div_mod::lemma_small_mod(0, m as nat);
    }
    vstd::arithmetic::div_mod::lemma_small_mod(1, m as nat);
}

/// Starting from a fresh server's zero counters, after any run of
/// operations the dashboard reports the number of successful paints and of
/// issued tokens (modulo 2^64, where the counters wrap).
pub proof fn counters_count_events(states: Seq<AppState>, painted: Seq<bool>, issued: Seq<bool>)
    requires
        states.len() == painted.len() + 1,
        issued.len() == painted.len(),
        states[0].pixels_painted_view() == 0,
        states[0].tokens_issued_view() == 0,
        forall|i: int| 0 <= i < painted.len() ==> counters_step(#[trigger] states[i], states[i + 1], painted[i], issued[i]),
    ensures
        states.last().pixels_painted_view() == count_true(painted) % 0x1_0000_0000_0000_0000,
        states.last().tokens_issued_view() == count_true(issued) % 0x1_0000_0000_0000_0000,
    decreases painted.len(),
{
    let m: int = 0x1_0000_0000_0000_0000;
    if painted.len() == 0 {
        vstd::arithmetic::div_mod::lemma_small_mod(0, m as nat);
    } else {
        let k = painted.len() - 1;
        let s2 = states.drop_last();
        let p2 = painted.drop_last();
        let i2 = issued.drop_last();
        assert forall|i: int| 0 <= i < p2.len() implies counters_step(#[trigger] s2[i], s2[i + 1], p2[i], i2[i]) by {
            assert(counters_step(states[i], states[i + 1], painted[i], issued[i]));
        }
        counters_count_events(s2, p2, i2);
        assert(counters_step(states[k], states[k + 1], painted[k], issued[k]));
        assert(s2.last() == states[k]);
        assert(states.last() == states[k + 1]);
        lemma_bump_mod(count_true(p2));
        lemma_bump_mod(count_true(i2));
    }
}

/// The admin area stays as it was configured: every operation of `AppState`
/// keeps the password (each contract says so), so over any run whether the
/// admin area is enabled, and which password opens it, never changes.
pub proof fn admin_stays_as_configured(states: Seq<AppState>)
    requires
        states.len() >= 1,
        forall|i: int| 0 <= i < states.len() - 1 ==> (#[trigger] states[i + 1]).password_view() == states[i].password_view(),
    ensures
        forall|i: int| 0 <= i < states.len() ==> (#[trigger] states[i]).password_view() == states[0].password_view(),
    decreases states.len(),
{
    if states.len() > 1 {
        let s2 = states.drop_last();
        assert forall|i: int| 0 <= i < s2.len() - 1 implies (#[trigger] s2[i + 1]).password_view() == s2[i].password_view() by {
            assert(s2[i + 1] == states[i + 1] && s2[i] == states[i]);
        }
        admin_stays_as_configured(s2);
        assert forall|i: int| 0 <= i < states.len() implies (#[trigger] states[i]).password_view() == states[0].password_view() by {
            if i < s2.len() {
                assert(s2[i] == states[i]);
            } else {
                assert(states[i - 1] == s2[i - 1]);
                assert(states[(i - 1) + 1].password_view() == states[i - 1].password_view());
            }
        }
    }
}

/// The decimal text of a number reads back as that number: it is one or
/// more decimal digits whose value is `n`, so `str::parse` gives `n` back
/// (each batch entry names the cell's real coordinates).
pub proof fn decimal_reads_back(n: nat)
    ensures
        crate::text::decimal(n).len() >= 1,
        crate::numparse::all_digits(crate::text::decimal(n)),
        crate::numparse::digits_value(crate::text::decimal(n)) == n,
        forall|max: nat| n <= max ==> crate::numparse::parse_unsigned(#[trigger] crate::text::decimal(n), max) == Some(n),
    decreases n,
{
    let d = crate::text::decimal(n);
    if n < 10 {
        assert(d == seq![crate::text::digit_char(n as int)]);
        assert(d.drop_last() =~= Seq::<char>::empty());
        assert(crate::numparse::digits_value(d.drop_last()) == 0);
    } else {
        decimal_reads_back(n / 10);
        let p = crate::text::decimal(n / 10);
        assert(d == p.push(crate::text::digit_char((n % 10) as int)));
        assert(d.drop_last() =~= p);
        assert forall|i: int| 0 <= i < d.len() implies crate::numparse::is_digit(#[trigger] d[i]) by {
            if i < p.len() {
                assert(d[i] == p[i]);
            }
        }
        assert(crate::numparse::digits_value(d) == (n / 10) * 10 + n % 10);
    }
    assert(d[0] != '+') by {
        assert(crate::numparse::is_digit(d[0]));
    }
    assert(crate::numparse::unsigned_digits(d) == d);
}

/// `v` clamped into `[lo, hi]`, told apart by what it is: the value of
/// `[lo, hi]` nearest to `v`.
pub open spec fn nearest_within(v: int, lo: int, hi: int, r: int) -> bool {
    &&& lo <= r <= hi
    &&& forall|w: int| lo <= w <= hi ==> #[trigger] abs_diff(r, v) <= abs_diff(w, v)
}

pub open spec fn abs_diff(a: int, b: int) -> int {
    if a >= b {
        a - b
    } else {
        b - a
    }
}

proof fn lemma_clamp_nearest(v: int, lo: int, hi: int)
    requires
        lo <= hi,
    ensures
        nearest_within(v, lo, hi, crate::settings::clamp(v, lo, hi)),
{
}

/// Sanitizing brings each numeric setting to the nearest value within its
/// bounds (values already within bounds stay, larger ones fall to the upper
/// bound, smaller ones rise to the lower), keeps `paused`, and is monotone:
/// a larger input never gives a smaller setting.
pub proof fn sanitizing_takes_the_nearest_allowed_value(s: crate::settings::Settings, t: crate::settings::Settings)
    ensures
        nearest_within(s.rate_limit as int, 1, 1_000_000, sanitized_spec(s).rate_limit as int),
        nearest_within(s.rate_window_secs as int, 1, 3_600, sanitized_spec(s).rate_window_secs as int),
        nearest_within(s.register_delay_secs as int, 0, 60, sanitized_spec(s).register_delay_secs as int),
        nearest_within(s.token_ttl_secs as int, 60, 2_592_000, sanitized_spec(s).token_ttl_secs as int),
        nearest_within(s.online_heartbeat_secs as int, 1, 300, sanitized_spec(s).online_heartbeat_secs as int),
        nearest_within(s.online_ttl_secs as int, 2, 600, sanitized_spec(s).online_ttl_secs as int),
        sanitized_spec(s).paused == s.paused,
        s.rate_limit <= t.rate_limit ==> sanitized_spec(s).rate_limit <= sanitized_spec(t).rate_limit,
        s.rate_window_secs <= t.rate_window_secs ==> sanitized_spec(s).rate_window_secs
            <= sanitized_spec(t).rate_window_secs,
        s.register_delay_secs <= t.register_delay_secs ==> sanitized_spec(s).register_delay_secs
            <= sanitized_spec(t).register_delay_secs,
        s.token_ttl_secs <= t.token_ttl_secs ==> sanitized_spec(s).token_ttl_secs <= sanitized_spec(t).token_ttl_secs,
        s.online_heartbeat_secs <= t.online_heartbeat_secs ==> sanitized_spec(s).online_heartbeat_secs
            <= sanitized_spec(t).online_heartbeat_secs,
        s.online_ttl_secs <= t.online_ttl_secs ==> sanitized_spec(s).online_ttl_secs
            <= sanitized_spec(t).online_ttl_secs,
{
    lemma_clamp_nearest(s.rate_limit as int, 1, 1_000_000);
    lemma_clamp_nearest(s.rate_window_secs as int, 1, 3_600);
    lemma_clamp_nearest(s.register_delay_secs as int, 0, 60);
    lemma_clamp_nearest(s.token_ttl_secs as int, 60, 2_592_000);
    lemma_clamp_nearest(s.online_heartbeat_secs as int, 1, 300);
    lemma_clamp_nearest(s.online_ttl_secs as int, 2, 600);
}

} // verus!
