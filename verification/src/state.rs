//! The in-process server state: canvas, pending updates, tokens and their
//! paint budgets, live viewers, counters, settings and admin sessions.
//!
//! Every operation comes in a form that takes the time as an argument (`_at`,
//! nanoseconds on the server's monotonic clock); the plain form reads the
//! clock and does the same.

use vstd::prelude::*;
use std::time::Instant;
use crate::canvas::{
    CANVAS_LEN, HEIGHT, Paint, WIDTH, ascii_text, blank, blank_canvas, canvas_text, check_pixel,
    lemma_blank_well_formed, lemma_offset_in_range, offset, painted, well_formed_canvas,
    write_cell,
};
use crate::color::{BYTES_PER_PIXEL, is_canonical_color, normalized};
use crate::errors::{ApiError, PixelError};
use crate::ident::{is_lower_hex, is_uuid_v4_text};
use crate::events::{PixelBuffer, drain_to_batch, batch_text, distinct_cells, same_cell};
use crate::settings::{Settings, Stats, default_settings, sanitized_spec, within_bounds};
use crate::strmap::{StrMap, elapsed, recent};

verus! {

/// Admin session lifetime, in seconds.
pub const ADMIN_SESSION_TTL_SECS: u64 = 3_600;

pub const NANOS_PER_SEC: u64 = 1_000_000_000;

/// `n + 1`, wrapping at `u64::MAX` like the release build's `+= 1`.
pub open spec fn bump(n: u64) -> u64 {
    if n == u64::MAX {
        0
    } else {
        (n + 1) as u64
    }
}

/// One paint counted against a token's budget: the window restarts when its
/// start lies `window_secs` whole seconds or more in the past.
pub open spec fn rate_step(entry: Option<(u64, u64)>, now: u64, window_secs: u64) -> (u64, u64) {
    let (count, start) = match entry {
        Some(e) => e,
        None => (0u64, now),
    };
    if elapsed(start, now) / (NANOS_PER_SEC as int) >= window_secs {
        (bump(0), now)
    } else {
        (bump(count), start)
    }
}

/// Buffer contents after recording that cell `(x, y)` got `c`: the cell's
/// entry is updated in place, or a new entry is appended.
pub open spec fn buffer_after(
    s: Seq<(u16, u16, Seq<char>)>,
    x: u16,
    y: u16,
    c: Seq<char>,
    r: Seq<(u16, u16, Seq<char>)>,
) -> bool {
    if exists|i: int| 0 <= i < s.len() && same_cell(#[trigger] s[i], x, y) {
        exists|i: int| 0 <= i < s.len() && same_cell(#[trigger] s[i], x, y) && r == s.update(i, (x, y, c))
    } else {
        r == s.push((x, y, c))
    }
}

/// Admin sessions expire this long after login, in nanoseconds.
pub open spec fn session_ttl_nanos() -> u64 {
    (ADMIN_SESSION_TTL_SECS * NANOS_PER_SEC) as u64
}

/// The first checks of `authorize`.
pub open spec fn gate_outcome(token: Seq<char>, settings: Settings) -> Result<(), ApiError> {
    if token.len() == 0 {
        Err(ApiError::Unauthorized)
    } else if settings.paused {
        Err(ApiError::Paused)
    } else {
        Ok(())
    }
}

/// What `authorize` does to the state and answers, for `token` at `now`.
pub open spec fn authorize_outcome(
    pre: AppState,
    post: AppState,
    token: Seq<char>,
    now: u64,
    r: Result<(), ApiError>,
) -> bool {
    &&& post.wf()
    &&& post.settings_view() == pre.settings_view()
    &&& post.canvas_view() == pre.canvas_view()
    &&& post.pending() == pre.pending()
    &&& post.tokens_view() == pre.tokens_view()
    &&& post.online_view() == pre.online_view()
    &&& post.pixels_painted_view() == pre.pixels_painted_view()
    &&& post.tokens_issued_view() == pre.tokens_issued_view()
    &&& post.sessions_view() == pre.sessions_view()
    &&& post.password_view() == pre.password_view()
    &&& if gate_outcome(token, pre.settings_view()) is Err {
        r == gate_outcome(token, pre.settings_view()) && post.rates_view() == pre.rates_view()
    } else if !pre.tokens_view().contains(token) {
        r == Err::<(), ApiError>(ApiError::Unauthorized) && post.rates_view() == pre.rates_view()
    } else {
        let e = rate_step(pre.rates_view().get(token), now, pre.settings_view().rate_window_secs);
        &&& post.rates_view() == pre.rates_view().insert(token, e)
        &&& r == if e.0 > pre.settings_view().rate_limit {
            Err::<(), ApiError>(ApiError::RateLimited)
        } else {
            Ok(())
        }
    }
}

/// The in-process state of one server.
pub struct AppState {
    settings: Settings,
    canvas: Vec<u8>,
    buffer: PixelBuffer,
    tokens: StrMap<()>,
    rates: StrMap<(u64, u64)>,
    online: StrMap<u64>,
    pixels_painted: u64,
    tokens_issued: u64,
    admin_sessions: StrMap<u64>,
    admin_password: Option<String>,
    epoch: Instant,
    last_clock: u64,
}

impl AppState {
    pub closed spec fn settings_view(&self) -> Settings {
        self.settings
    }

    /// The canvas bytes: `rrggbb` for each cell, row by row.
    pub closed spec fn canvas_view(&self) -> Seq<u8> {
        self.canvas@
    }

    /// Cell updates waiting for the next flush.
    pub closed spec fn pending(&self) -> Seq<(u16, u16, Seq<char>)> {
        self.buffer@
    }

    /// Tokens that may paint.
    pub closed spec fn tokens_view(&self) -> Set<Seq<char>> {
        self.tokens@.dom()
    }

    /// Per token: paints counted in its current window, and the window start.
    pub closed spec fn rates_view(&self) -> Map<Seq<char>, (u64, u64)> {
        self.rates@
    }

    /// Viewers by connection id, with the time each was last seen.
    pub closed spec fn online_view(&self) -> Map<Seq<char>, u64> {
        self.online@
    }

    pub closed spec fn pixels_painted_view(&self) -> u64 {
        self.pixels_painted
    }

    pub closed spec fn tokens_issued_view(&self) -> u64 {
        self.tokens_issued
    }

    /// Admin sessions by id, with the time each was opened.
    pub closed spec fn sessions_view(&self) -> Map<Seq<char>, u64> {
        self.admin_sessions@
    }

    /// The latest reading of this server's clock, in nanoseconds since the
    /// server started.
    pub closed spec fn clock_view(&self) -> u64 {
        self.last_clock
    }

    /// All the state that the operations act on is as in `other` (only the
    /// clock may differ).
    pub open spec fn same_views(&self, other: &AppState) -> bool {
        &&& self.wf() == other.wf()
        &&& self.settings_view() == other.settings_view()
        &&& self.canvas_view() == other.canvas_view()
        &&& self.pending() == other.pending()
        &&& self.tokens_view() == other.tokens_view()
        &&& self.rates_view() == other.rates_view()
        &&& self.online_view() == other.online_view()
        &&& self.pixels_painted_view() == other.pixels_painted_view()
        &&& self.tokens_issued_view() == other.tokens_issued_view()
        &&& self.sessions_view() == other.sessions_view()
        &&& self.password_view() == other.password_view()
    }

    pub closed spec fn password_view(&self) -> Option<Seq<char>> {
        match self.admin_password {
            Some(p) => Some(p@),
            None => None,
        }
    }

    pub closed spec fn wf(&self) -> bool {
        &&& within_bounds(self.settings)
        &&& well_formed_canvas(self.canvas@)
        &&& self.buffer.wf()
        &&& self.tokens.wf()
        &&& self.rates.wf()
        &&& self.online.wf()
        &&& self.admin_sessions.wf()
        &&& (self.admin_password matches Some(p) ==> p@.len() > 0)
    }

    /// Everything but the fields named by the caller's other clauses stays.
    pub open spec fn same_except_canvas(&self, other: &AppState) -> bool {
        &&& self.settings_view() == other.settings_view()
        &&& self.tokens_view() == other.tokens_view()
        &&& self.rates_view() == other.rates_view()
        &&& self.online_view() == other.online_view()
        &&& self.tokens_issued_view() == other.tokens_issued_view()
        &&& self.sessions_view() == other.sessions_view()
        &&& self.password_view() == other.password_view()
    }

    /// Build the state of a fresh server: default settings, a white canvas,
    /// nothing pending, no tokens, viewers or sessions. The admin area is
    /// enabled by a non-empty password.
    pub fn new(admin_password: Option<String>) -> (s: Self)
        ensures
            s.wf(),
            s.settings_view() == default_settings(),
            s.canvas_view() == blank(),
            s.pending().len() == 0,
            s.tokens_view().is_empty(),
            s.rates_view().is_empty(),
            s.online_view().is_empty(),
            s.pixels_painted_view() == 0,
            s.tokens_issued_view() == 0,
            s.sessions_view().is_empty(),
            s.clock_view() == 0,
            s.password_view() == match admin_password {
                Some(p) => if p@.len() > 0 {
                    Some(p@)
                } else {
                    None::<Seq<char>>
                },
                None => None,
            },
    {
        let admin_password = match admin_password {
            Some(p) => if p.as_str().is_empty() {
                None
            } else {
                Some(p)
            },
            None => None,
        };
        proof {
            lemma_blank_well_formed();
        }
        let s = AppState {
            settings: Settings::default(),
            canvas: blank_canvas(),
            buffer: PixelBuffer::new(),
            tokens: StrMap::new(),
            rates: StrMap::new(),
            online: StrMap::new(),
            pixels_painted: 0,
            tokens_issued: 0,
            admin_sessions: StrMap::new(),
            admin_password,
            epoch: crate::clock::instant_now(),
            last_clock: 0,
        };
        assert(s.tokens@.dom() =~= Set::<Seq<char>>::empty());
        s
    }

    /// The current time on this server's monotonic clock, in nanoseconds
    /// since the server started. Readings never go backwards (a reading
    /// below the latest one, which `Instant` rules out, is taken as the
    /// latest), and each becomes the latest.
    pub fn clock(&mut self) -> (t: u64)
        ensures
            t >= old(self).clock_view(),
            final(self).clock_view() == t,
            final(self).same_views(old(self)),
    {
        let r = crate::clock::nanos_since(&self.epoch);
        let t = if r < self.last_clock {
            self.last_clock
        } else {
            r
        };
        self.last_clock = t;
        t
    }

    /// A snapshot of the current runtime settings.
    pub fn settings(&self) -> (s: Settings)
        ensures
            s == self.settings_view(),
    {
        self.settings
    }

    /// The whole canvas as a `WIDTH*HEIGHT*6` hex string.
    pub fn canvas(&self) -> (s: String)
        requires
            self.wf(),
        ensures
            s@ == ascii_text(self.canvas_view()),
            s@.len() == CANVAS_LEN,
            forall|i: int| 0 <= i < s@.len() ==> is_lower_hex(#[trigger] s@[i]),
    {
        let s = canvas_text(&self.canvas);
        assert forall|i: int| 0 <= i < s@.len() implies is_lower_hex(#[trigger] s@[i]) by {
            let b = self.canvas@[i];
            assert(0x30 <= b <= 0x39 || 0x61 <= b <= 0x66);
            assert(s@[i] == b as char);
        }
        s
    }

    /// The canvas text that a shared store returned, if it has the right
    /// length in bytes, else this server's own canvas.
    pub fn canvas_or_stored(&self, stored: Option<String>) -> (s: String)
        requires
            self.wf(),
        ensures
            s@ == match stored {
                Some(t) => if vstd::utf8::encode_utf8(t@).len() as usize == CANVAS_LEN {
                    t@
                } else {
                    ascii_text(self.canvas_view())
                },
                None => ascii_text(self.canvas_view()),
            },
    {
        match stored {
            Some(t) => {
                if t.as_str().len() == CANVAS_LEN {
                    t
                } else {
                    self.canvas()
                }
            },
            None => self.canvas(),
        }
    }

    /// Write a validated paint into the canvas and the pending updates, and
    /// count it.
    pub fn apply_paint(&mut self, p: &Paint)
        requires
            old(self).wf(),
            p.valid(),
        ensures
            final(self).wf(),
            final(self).canvas_view() == painted(
                old(self).canvas_view(),
                offset(p.x as int, p.y as int),
                p.color@,
            ),
            buffer_after(old(self).pending(), p.x as u16, p.y as u16, p.color@, final(self).pending()),
            final(self).pixels_painted_view() == bump(old(self).pixels_painted_view()),
            final(self).same_except_canvas(old(self)),
    {
        write_cell(&mut self.canvas, p);
        proof {
            let off = offset(p.x as int, p.y as int);
            lemma_offset_in_range(p.x as int, p.y as int);
            assert forall|i: int| 0 <= i < self.canvas@.len() implies (0x30 <= #[trigger] self.canvas@[i]
                <= 0x39 || 0x61 <= self.canvas@[i] <= 0x66) by {
                if off <= i < off + BYTES_PER_PIXEL {
                    let c = p.color@[i - off];
                    assert('0' <= c <= '9' || 'a' <= c <= 'f');
                }
            }
        }
        let color = p.color.clone();
        self.buffer.insert(p.x as u16, p.y as u16, color);
        self.pixels_painted = self.pixels_painted.wrapping_add(1);
    }

    /// Paint a single pixel. Fails, changing nothing, when the cell is off
    /// the canvas or the colour is not a 6-digit hex colour.
    pub fn set_pixel(&mut self, x: usize, y: usize, color: &str) -> (r: Result<(), PixelError>)
        requires
            old(self).wf(),
        ensures
            final(self).wf(),
            match r {
                Ok(()) => {
                    &&& x < WIDTH && y < HEIGHT
                    &&& normalized(color@) is Some
                    &&& final(self).canvas_view() == painted(
                        old(self).canvas_view(),
                        offset(x as int, y as int),
                        normalized(color@)->0,
                    )
                    &&& buffer_after(
                        old(self).pending(),
                        x as u16,
                        y as u16,
                        normalized(color@)->0,
                        final(self).pending(),
                    )
                    &&& final(self).pixels_painted_view() == bump(old(self).pixels_painted_view())
                    &&& final(self).same_except_canvas(old(self))
                },
                Err(PixelError::OutOfBounds { x: ex, y: ey, width, height }) => {
                    &&& x >= WIDTH || y >= HEIGHT
                    &&& ex == x && ey == y && width == WIDTH && height == HEIGHT
                    &&& *final(self) == *old(self)
                },
                Err(PixelError::InvalidColor(c)) => {
                    &&& x < WIDTH && y < HEIGHT
                    &&& normalized(color@) is None
                    &&& c@ == color@
                    &&& *final(self) == *old(self)
                },
            },
    {
        let p = check_pixel(x, y, color)?;
        self.apply_paint(&p);
        Ok(())
    }

    /// Record a live update that arrived from elsewhere, for the next flush.
    pub fn fold_event(&mut self, x: u16, y: u16, color: String)
        requires
            old(self).wf(),
        ensures
            final(self).wf(),
            buffer_after(old(self).pending(), x, y, color@, final(self).pending()),
            final(self).canvas_view() == old(self).canvas_view(),
            final(self).pixels_painted_view() == old(self).pixels_painted_view(),
            final(self).same_except_canvas(old(self)),
    {
        self.buffer.insert(x, y, color);
    }

    /// Take the pending updates as one batched message (a JSON array), or
    /// `None` if nothing is pending; the buffer is left empty either way.
    pub fn take_batch(&mut self) -> (r: Option<String>)
        requires
            old(self).wf(),
        ensures
            final(self).wf(),
            final(self).pending().len() == 0,
            match r {
                None => old(self).pending().len() == 0,
                Some(t) => old(self).pending().len() > 0 && t@ == batch_text(old(self).pending()),
            },
            final(self).canvas_view() == old(self).canvas_view(),
            final(self).pixels_painted_view() == old(self).pixels_painted_view(),
            final(self).same_except_canvas(old(self)),
    {
        let drained = self.buffer.take();
        drain_to_batch(drained)
    }

    /// Accept a token for painting and count it as issued. (Issuing is
    /// delayed by the caller; this stores at once.)
    pub fn store_token(&mut self, token: &str)
        requires
            old(self).wf(),
        ensures
            final(self).wf(),
            final(self).tokens_view() == old(self).tokens_view().insert(token@),
            final(self).tokens_issued_view() == bump(old(self).tokens_issued_view()),
            final(self).canvas_view() == old(self).canvas_view(),
            final(self).pending() == old(self).pending(),
            final(self).pixels_painted_view() == old(self).pixels_painted_view(),
            final(self).settings_view() == old(self).settings_view(),
            final(self).rates_view() == old(self).rates_view(),
            final(self).online_view() == old(self).online_view(),
            final(self).sessions_view() == old(self).sessions_view(),
            final(self).password_view() == old(self).password_view(),
    {
        self.tokens.insert(token, ());
        assert(self.tokens@.dom() =~= old(self).tokens@.dom().insert(token@));
        self.tokens_issued = self.tokens_issued.wrapping_add(1);
    }

    /// Issue a fresh random token and accept it for painting. Issuing is
    /// meant to be slow: the caller waits `register_delay_secs` first.
    pub fn register_token(&mut self) -> (t: String)
        requires
            old(self).wf(),
        ensures
            final(self).wf(),
            is_uuid_v4_text(t@),
            final(self).tokens_view() == old(self).tokens_view().insert(t@),
            final(self).tokens_issued_view() == bump(old(self).tokens_issued_view()),
            final(self).canvas_view() == old(self).canvas_view(),
            final(self).pending() == old(self).pending(),
            final(self).pixels_painted_view() == old(self).pixels_painted_view(),
            final(self).settings_view() == old(self).settings_view(),
            final(self).rates_view() == old(self).rates_view(),
            final(self).online_view() == old(self).online_view(),
            final(self).sessions_view() == old(self).sessions_view(),
            final(self).password_view() == old(self).password_view(),
    {
        let token = crate::ident::new_token();
        self.store_token(token.as_str());
        token
    }

    /// The checks that come before any token lookup: an empty token is
    /// refused, and nothing may paint in maintenance mode.
    pub fn gate(&self, token: &str) -> (r: Result<(), ApiError>)
        ensures
            r == gate_outcome(token@, self.settings_view()),
    {
        if token.is_empty() {
            return Err(ApiError::Unauthorized);
        }
        if self.settings.paused {
            return Err(ApiError::Paused);
        }
        Ok(())
    }

    /// Validate `token` at time `now` and count this paint against its
    /// budget: `Unauthorized` for an empty or unknown token, `Paused` in
    /// maintenance mode, `RateLimited` past the window's limit.
    pub fn authorize_at(&mut self, token: &str, now: u64) -> (r: Result<(), ApiError>)
        requires
            old(self).wf(),
        ensures
            authorize_outcome(*old(self), *final(self), token@, now, r),
            final(self).clock_view() == old(self).clock_view(),
    {
        self.gate(token)?;
        if !self.tokens.contains(token) {
            return Err(ApiError::Unauthorized);
        }
        let (count, start) = match self.rates.get(token) {
            Some(e) => e,
            None => (0u64, now),
        };
        let age: u64 = if now >= start {
            now - start
        } else {
            0
        };
        let entry = if age / NANOS_PER_SEC >= self.settings.rate_window_secs {
            (0u64.wrapping_add(1), now)
        } else {
            (count.wrapping_add(1), start)
        };
        self.rates.insert(token, entry);
        if entry.0 > self.settings.rate_limit {
            return Err(ApiError::RateLimited);
        }
        Ok(())
    }

    /// `authorize_at` at the current time on this server's clock, in
    /// nanoseconds: a reading no earlier than the latest, which becomes the
    /// latest.
    pub fn authorize(&mut self, token: &str) -> (r: Result<(), ApiError>)
        requires
            old(self).wf(),
        ensures
            exists|now: u64|
                now >= old(self).clock_view() && final(self).clock_view() == now && authorize_outcome(
                    *old(self),
                    *final(self),
                    token@,
                    now,
                    r,
                ),
    {
        let now = self.clock();
        let ghost mid = *self;
        let r = self.authorize_at(token, now);
        proof {
            assert(mid.same_views(old(self)));
            assert(authorize_outcome(*old(self), *self, token@, now, r));
        }
        r
    }

    /// Mark a viewer (by connection id) as seen at `now`.
    pub fn online_seen_at(&mut self, cid: &str, now: u64)
        requires
            old(self).wf(),
        ensures
            final(self).clock_view() == old(self).clock_view(),
            final(self).wf(),
            final(self).online_view() == old(self).online_view().insert(cid@, now),
            final(self).only_online_changed(old(self)),
    {
        self.online.insert(cid, now);
    }

    /// `online_seen_at` at the current time.
    pub fn online_seen(&mut self, cid: &str)
        requires
            old(self).wf(),
        ensures
            final(self).wf(),
            exists|now: u64| now >= old(self).clock_view() && final(self).clock_view() == now && final(self).online_view() == old(self).online_view().insert(cid@, now),
            final(self).only_online_changed(old(self)),
    {
        let now = self.clock();
        self.online_seen_at(cid, now);
    }

    /// Remove a viewer whose connection closed.
    pub fn online_gone(&mut self, cid: &str)
        requires
            old(self).wf(),
        ensures
            final(self).wf(),
            final(self).online_view() == old(self).online_view().remove(cid@),
            final(self).only_online_changed(old(self)),
    {
        self.online.remove(cid);
    }

    /// Viewer entries expire `online_ttl_secs` after they were last seen.
    pub open spec fn online_ttl_nanos(&self) -> u64 {
        let t = self.settings_view().online_ttl_secs;
        ((if t < 0 { 0 } else { t as int }) * NANOS_PER_SEC) as u64
    }

    /// Number of connected viewers at `now`, after pruning the entries whose
    /// heartbeat went stale.
    pub fn online_at(&mut self, now: u64) -> (n: i64)
        requires
            old(self).wf(),
        ensures
            final(self).clock_view() == old(self).clock_view(),
            final(self).wf(),
            final(self).online_view() == recent(old(self).online_view(), now, old(self).online_ttl_nanos()),
            final(self).online_view().dom().finite(),
            n == final(self).online_view().dom().len() as i64,
            final(self).only_online_changed(old(self)),
    {
        let t = self.settings.online_ttl_secs;
        let secs: u64 = if t < 0 {
            0
        } else {
            t as u64
        };
        let ttl = secs * NANOS_PER_SEC;
        self.online.retain_recent(now, ttl);
        self.online.len() as i64
    }

    /// `online_at` at the current time.
    pub fn online(&mut self) -> (n: i64)
        requires
            old(self).wf(),
        ensures
            final(self).wf(),
            exists|now: u64|
                now >= old(self).clock_view() && final(self).clock_view() == now && final(self).online_view() == recent(old(self).online_view(), now, old(self).online_ttl_nanos()),
            final(self).online_view().dom().finite(),
            n == final(self).online_view().dom().len() as i64,
            final(self).only_online_changed(old(self)),
    {
        let now = self.clock();
        let ghost mid = *self;
        let n = self.online_at(now);
        proof {
            assert(mid.online_ttl_nanos() == old(self).online_ttl_nanos());
            assert(self.online_view() == recent(old(self).online_view(), now, old(self).online_ttl_nanos()));
        }
        n
    }

    /// Everything except the viewer map is as in `other`.
    pub open spec fn only_online_changed(&self, other: &AppState) -> bool {
        &&& self.settings_view() == other.settings_view()
        &&& self.canvas_view() == other.canvas_view()
        &&& self.pending() == other.pending()
        &&& self.tokens_view() == other.tokens_view()
        &&& self.rates_view() == other.rates_view()
        &&& self.pixels_painted_view() == other.pixels_painted_view()
        &&& self.tokens_issued_view() == other.tokens_issued_view()
        &&& self.sessions_view() == other.sessions_view()
        &&& self.password_view() == other.password_view()
    }

    /// Apply new settings, clamped to their bounds, and return what was
    /// applied.
    pub fn update_settings(&mut self, new: Settings) -> (applied: Settings)
        requires
            old(self).wf(),
        ensures
            final(self).wf(),
            applied == sanitized_spec(new),
            final(self).settings_view() == applied,
            final(self).canvas_view() == old(self).canvas_view(),
            final(self).pending() == old(self).pending(),
            final(self).tokens_view() == old(self).tokens_view(),
            final(self).rates_view() == old(self).rates_view(),
            final(self).online_view() == old(self).online_view(),
            final(self).pixels_painted_view() == old(self).pixels_painted_view(),
            final(self).tokens_issued_view() == old(self).tokens_issued_view(),
            final(self).sessions_view() == old(self).sessions_view(),
            final(self).password_view() == old(self).password_view(),
    {
        let clean = new.sanitized();
        self.settings = clean;
        clean
    }

    /// Live counters for the admin dashboard, at `now`.
    pub fn stats_at(&mut self, now: u64) -> (st: Stats)
        requires
            old(self).wf(),
        ensures
            final(self).clock_view() == old(self).clock_view(),
            final(self).wf(),
            final(self).online_view() == recent(old(self).online_view(), now, old(self).online_ttl_nanos()),
            final(self).online_view().dom().finite(),
            st.online == final(self).online_view().dom().len() as i64,
            st.pixels_painted == old(self).pixels_painted_view(),
            st.tokens_issued == old(self).tokens_issued_view(),
            final(self).only_online_changed(old(self)),
    {
        let online = self.online_at(now);
        Stats { pixels_painted: self.pixels_painted, tokens_issued: self.tokens_issued, online }
    }

    /// `stats_at` at the current time.
    pub fn stats(&mut self) -> (st: Stats)
        requires
            old(self).wf(),
        ensures
            final(self).wf(),
            exists|now: u64|
                now >= old(self).clock_view() && final(self).clock_view() == now && final(self).online_view() == recent(old(self).online_view(), now, old(self).online_ttl_nanos()),
            final(self).online_view().dom().finite(),
            st.online == final(self).online_view().dom().len() as i64,
            st.pixels_painted == old(self).pixels_painted_view(),
            st.tokens_issued == old(self).tokens_issued_view(),
            final(self).only_online_changed(old(self)),
    {
        let now = self.clock();
        let ghost mid = *self;
        let st = self.stats_at(now);
        proof {
            assert(mid.online_ttl_nanos() == old(self).online_ttl_nanos());
            assert(self.online_view() == recent(old(self).online_view(), now, old(self).online_ttl_nanos()));
        }
        st
    }

    /// Wipe the canvas back to white.
    pub fn clear_canvas(&mut self)
        requires
            old(self).wf(),
        ensures
            final(self).wf(),
            final(self).canvas_view() == blank(),
            final(self).pending() == old(self).pending(),
            final(self).pixels_painted_view() == old(self).pixels_painted_view(),
            final(self).same_except_canvas(old(self)),
    {
        proof {
            lemma_blank_well_formed();
        }
        self.canvas = blank_canvas();
    }

    /// Whether an admin password is configured.
    pub fn admin_enabled(&self) -> (b: bool)
        ensures
            b == self.password_view() is Some,
    {
        self.admin_password.is_some()
    }

    /// Compare `password` with the configured one in constant time and, on a
    /// match, mint a fresh session id (without recording it).
    pub fn admin_authenticate(&self, password: &str) -> (r: Option<String>)
        ensures
            r is Some <==> self.password_view() == Some(password@),
            r matches Some(sid) ==> sid@.len() == 72 && is_uuid_v4_text(sid@.subrange(0, 36))
                && is_uuid_v4_text(sid@.subrange(36, 72)),
    {
        match &self.admin_password {
            None => None,
            Some(expected) => {
                let eq = crate::security::constant_time_eq(password.as_bytes(), expected.as_str().as_bytes());
                proof {
                    vstd::utf8::encode_utf8_decode_utf8(password@);
                    vstd::utf8::encode_utf8_decode_utf8(expected@);
                }
                if !eq {
                    return None;
                }
                Some(crate::ident::new_session_id())
            },
        }
    }

    /// Log in at `now`: on the right password, open a session and return its
    /// id; `None` if the admin area is disabled or the password is wrong.
    pub fn admin_login_at(&mut self, password: &str, now: u64) -> (r: Option<String>)
        requires
            old(self).wf(),
        ensures
            final(self).clock_view() == old(self).clock_view(),
            final(self).wf(),
            r is Some <==> old(self).password_view() == Some(password@),
            match r {
                Some(sid) => sid@.len() == 72 && final(self).sessions_view() == old(self).sessions_view().insert(sid@, now),
                None => final(self).sessions_view() == old(self).sessions_view(),
            },
            final(self).only_sessions_changed(old(self)),
    {
        let r = self.admin_authenticate(password);
        match r {
            Some(sid) => {
                self.admin_sessions.insert(sid.as_str(), now);
                Some(sid)
            },
            None => None,
        }
    }

    /// `admin_login_at` at the current time.
    pub fn admin_login(&mut self, password: &str) -> (r: Option<String>)
        requires
            old(self).wf(),
        ensures
            final(self).wf(),
            r is Some <==> old(self).password_view() == Some(password@),
            match r {
                Some(sid) => sid@.len() == 72 && exists|now: u64|
                    now >= old(self).clock_view() && final(self).clock_view() == now && final(self).sessions_view() == old(self).sessions_view().insert(sid@, now),
                None => final(self).sessions_view() == old(self).sessions_view(),
            },
            final(self).only_sessions_changed(old(self)),
    {
        let now = self.clock();
        self.admin_login_at(password, now)
    }

    /// Whether `sid` could name a session at all: the admin area is enabled
    /// and the id is not empty.
    pub fn session_candidate(&self, sid: &str) -> (b: bool)
        ensures
            b == (self.password_view() is Some && sid@.len() > 0),
    {
        self.admin_password.is_some() && !sid.is_empty()
    }

    /// Whether `sid` is a valid admin session at `now`; sessions older than
    /// `ADMIN_SESSION_TTL_SECS` are dropped first.
    pub fn admin_check_at(&mut self, sid: &str, now: u64) -> (b: bool)
        requires
            old(self).wf(),
        ensures
            final(self).clock_view() == old(self).clock_view(),
            final(self).wf(),
            !(old(self).password_view() is Some && sid@.len() > 0) ==> !b && final(self).sessions_view() == old(self).sessions_view(),
            (old(self).password_view() is Some && sid@.len() > 0) ==> {
                &&& final(self).sessions_view() == recent(old(self).sessions_view(), now, session_ttl_nanos())
                &&& b == final(self).sessions_view().contains_key(sid@)
            },
            final(self).only_sessions_changed(old(self)),
    {
        if !self.session_candidate(sid) {
            return false;
        }
        self.admin_sessions.retain_recent(now, ADMIN_SESSION_TTL_SECS * NANOS_PER_SEC);
        self.admin_sessions.contains(sid)
    }

    /// `admin_check_at` at the current time.
    pub fn admin_check(&mut self, sid: &str) -> (b: bool)
        requires
            old(self).wf(),
        ensures
            final(self).wf(),
            !(old(self).password_view() is Some && sid@.len() > 0) ==> !b && final(self).sessions_view() == old(self).sessions_view(),
            (old(self).password_view() is Some && sid@.len() > 0) ==> exists|now: u64| {
                &&& now >= old(self).clock_view() && final(self).clock_view() == now
                &&& final(self).sessions_view() == recent(old(self).sessions_view(), now, session_ttl_nanos())
                &&& b == final(self).sessions_view().contains_key(sid@)
            },
            final(self).only_sessions_changed(old(self)),
    {
        let now = self.clock();
        self.admin_check_at(sid, now)
    }

    /// End an admin session.
    pub fn admin_logout(&mut self, sid: &str)
        requires
            old(self).wf(),
        ensures
            final(self).wf(),
            final(self).sessions_view() == old(self).sessions_view().remove(sid@),
            final(self).only_sessions_changed(old(self)),
    {
        self.admin_sessions.remove(sid);
    }

    /// Everything except the admin sessions is as in `other`.
    pub open spec fn only_sessions_changed(&self, other: &AppState) -> bool {
        &&& self.settings_view() == other.settings_view()
        &&& self.canvas_view() == other.canvas_view()
        &&& self.pending() == other.pending()
        &&& self.tokens_view() == other.tokens_view()
        &&& self.rates_view() == other.rates_view()
        &&& self.online_view() == other.online_view()
        &&& self.pixels_painted_view() == other.pixels_painted_view()
        &&& self.tokens_issued_view() == other.tokens_issued_view()
        &&& self.password_view() == other.password_view()
    }
}

/// A stored, non-empty token that has not painted yet may paint: its first
/// paint opens a window with a count of one and is accepted, unless the
/// canvas is in maintenance mode, which refuses every token.
pub proof fn stored_token_may_paint(
    pre: AppState,
    post: AppState,
    token: Seq<char>,
    now: u64,
    r: Result<(), ApiError>,
)
    requires
        pre.wf(),
        token.len() > 0,
        pre.tokens_view().contains(token),
        !pre.rates_view().contains_key(token),
        authorize_outcome(pre, post, token, now, r),
    ensures
        pre.settings_view().paused ==> r == Err::<(), ApiError>(ApiError::Paused),
        !pre.settings_view().paused ==> r is Ok && post.rates_view()[token] == (1u64, now),
{
    assert(elapsed(now, now) == 0);
}

/// A token's window restarts once this server's clock has moved on by the
/// window's length. `authorize` counts a paint at a clock reading no earlier
/// than the latest one: so when, by the latest reading, `rate_window_secs`
/// whole seconds or more have passed since the token's window opened, the
/// paint opens a new window at the new reading, counted as its first, and is
/// accepted.
pub proof fn window_restarts_on_the_clock(
    pre: AppState,
    post: AppState,
    token: Seq<char>,
    now: u64,
    r: Result<(), ApiError>,
)
    requires
        pre.wf(),
        token.len() > 0,
        !pre.settings_view().paused,
        pre.tokens_view().contains(token),
        pre.rates_view().contains_key(token),
        elapsed(pre.rates_view()[token].1, pre.clock_view()) / (NANOS_PER_SEC as int)
            >= pre.settings_view().rate_window_secs,
        now >= pre.clock_view(),
        authorize_outcome(pre, post, token, now, r),
    ensures
        r is Ok,
        post.rates_view()[token] == (1u64, now),
{
    let start = pre.rates_view()[token].1;
    let a = elapsed(start, pre.clock_view());
    let b = elapsed(start, now);
    assert(a >= 1) by {
        if a == 0 {
            assert(0int / (NANOS_PER_SEC as int) == 0);
        }
    }
    assert(b >= a);
    assert(b / (NANOS_PER_SEC as int) >= a / (NANOS_PER_SEC as int)) by (nonlinear_arith)
        requires
            b >= a,
            a >= 0,
    ;
}

} // verus!
