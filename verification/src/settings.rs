//! Runtime-tunable settings and the dashboard counters.

use vstd::prelude::*;

verus! {

/// `v` brought into `[lo, hi]` (`Ord::clamp`).
pub open spec fn clamp(v: int, lo: int, hi: int) -> int {
    if v < lo {
        lo
    } else if v > hi {
        hi
    } else {
        v
    }
}

pub const DEFAULT_REGISTER_DELAY_SECS: u64 = 5;
pub const DEFAULT_TOKEN_TTL_SECS: u64 = 86_400;
pub const DEFAULT_RATE_LIMIT: u64 = 4096;
pub const DEFAULT_RATE_WINDOW_SECS: u64 = 30;
pub const DEFAULT_ONLINE_HEARTBEAT_SECS: u64 = 5;
pub const DEFAULT_ONLINE_TTL_SECS: i64 = 15;

/// Runtime-tunable settings, editable from the admin page.
#[derive(Clone, Copy, Debug, PartialEq, Eq, Structural)]
pub struct Settings {
    /// Max pixels a token may paint per `rate_window_secs`.
    pub rate_limit: u64,
    /// Length of the rate-limit window, in seconds.
    pub rate_window_secs: u64,
    /// Delay applied when issuing a token, in seconds.
    pub register_delay_secs: u64,
    /// How long an issued token stays valid, in seconds.
    pub token_ttl_secs: u64,
    /// Viewer heartbeat interval, in seconds.
    pub online_heartbeat_secs: u64,
    /// Viewer entry expiry, in seconds.
    pub online_ttl_secs: i64,
    /// Maintenance switch: when true the canvas is read-only.
    pub paused: bool,
}

/// The settings a fresh server starts with.
pub open spec fn default_settings() -> Settings {
    Settings {
        rate_limit: DEFAULT_RATE_LIMIT,
        rate_window_secs: DEFAULT_RATE_WINDOW_SECS,
        register_delay_secs: DEFAULT_REGISTER_DELAY_SECS,
        token_ttl_secs: DEFAULT_TOKEN_TTL_SECS,
        online_heartbeat_secs: DEFAULT_ONLINE_HEARTBEAT_SECS,
        online_ttl_secs: DEFAULT_ONLINE_TTL_SECS,
        paused: false,
    }
}

/// Every value lies within the bounds that `sanitized` enforces.
pub open spec fn within_bounds(s: Settings) -> bool {
    &&& 1 <= s.rate_limit <= 1_000_000
    &&& 1 <= s.rate_window_secs <= 3_600
    &&& s.register_delay_secs <= 60
    &&& 60 <= s.token_ttl_secs <= 2_592_000
    &&& 1 <= s.online_heartbeat_secs <= 300
    &&& 2 <= s.online_ttl_secs <= 600
}

/// Each value clamped to its bound; `paused` is kept as it is.
pub open spec fn sanitized_spec(s: Settings) -> Settings {
    Settings {
        rate_limit: clamp(s.rate_limit as int, 1, 1_000_000) as u64,
        rate_window_secs: clamp(s.rate_window_secs as int, 1, 3_600) as u64,
        register_delay_secs: if s.register_delay_secs <= 60 {
            s.register_delay_secs
        } else {
            60
        },
        token_ttl_secs: clamp(s.token_ttl_secs as int, 60, 2_592_000) as u64,
        online_heartbeat_secs: clamp(s.online_heartbeat_secs as int, 1, 300) as u64,
        online_ttl_secs: clamp(s.online_ttl_secs as int, 2, 600) as i64,
        paused: s.paused,
    }
}

impl Default for Settings {
    fn default() -> (s: Self)
        ensures
            s == default_settings(),
    {
        Settings {
            rate_limit: DEFAULT_RATE_LIMIT,
            rate_window_secs: DEFAULT_RATE_WINDOW_SECS,
            register_delay_secs: DEFAULT_REGISTER_DELAY_SECS,
            token_ttl_secs: DEFAULT_TOKEN_TTL_SECS,
            online_heartbeat_secs: DEFAULT_ONLINE_HEARTBEAT_SECS,
            online_ttl_secs: DEFAULT_ONLINE_TTL_SECS,
            paused: false,
        }
    }
}

fn clamp_u64(v: u64, lo: u64, hi: u64) -> (r: u64)
    requires
        lo <= hi,
    ensures
        r == clamp(v as int, lo as int, hi as int),
{
    if v < lo {
        lo
    } else if v > hi {
        hi
    } else {
        v
    }
}

fn clamp_i64(v: i64, lo: i64, hi: i64) -> (r: i64)
    requires
        lo <= hi,
    ensures
        r == clamp(v as int, lo as int, hi as int),
{
    if v < lo {
        lo
    } else if v > hi {
        hi
    } else {
        v
    }
}

impl Settings {
    /// Clamp every value to sane bounds so the admin cannot brick the app
    /// (a zero window, absurd delays).
    pub fn sanitized(self) -> (s: Settings)
        ensures
            s == sanitized_spec(self),
            within_bounds(s),
    {
        Settings {
            rate_limit: clamp_u64(self.rate_limit, 1, 1_000_000),
            rate_window_secs: clamp_u64(self.rate_window_secs, 1, 3_600),
            register_delay_secs: if self.register_delay_secs <= 60 {
                self.register_delay_secs
            } else {
                60
            },
            token_ttl_secs: clamp_u64(self.token_ttl_secs, 60, 2_592_000),
            online_heartbeat_secs: clamp_u64(self.online_heartbeat_secs, 1, 300),
            online_ttl_secs: clamp_i64(self.online_ttl_secs, 2, 600),
            paused: self.paused,
        }
    }
}

/// The defaults already lie within bounds.
pub proof fn default_settings_within_bounds()
    ensures
        within_bounds(default_settings()),
        sanitized_spec(default_settings()) == default_settings(),
{
}

/// Sanitizing leaves settings that are within bounds unchanged; in
/// particular sanitizing twice is the same as sanitizing once.
pub proof fn sanitized_keeps_valid_settings(s: Settings)
    ensures
        within_bounds(sanitized_spec(s)),
        within_bounds(s) ==> sanitized_spec(s) == s,
        sanitized_spec(sanitized_spec(s)) == sanitized_spec(s),
{
}

/// Live counters surfaced on the admin dashboard.
#[derive(Clone, Copy, Debug, PartialEq, Eq, Structural)]
pub struct Stats {
    pub pixels_painted: u64,
    pub tokens_issued: u64,
    pub online: i64,
}

} // verus!
