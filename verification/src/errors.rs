//! Errors of the paint path.

use vstd::prelude::*;

verus! {

/// Why a pixel could not be painted.
#[derive(Clone, Debug)]
pub enum PixelError {
    OutOfBounds { x: usize, y: usize, width: usize, height: usize },
    /// The colour as it was given.
    InvalidColor(String),
}

/// Why a paint request was refused: invalid pixel, missing or unknown token,
/// too many pixels in the window, or maintenance mode.
#[derive(Clone, Debug)]
pub enum ApiError {
    Pixel(PixelError),
    Unauthorized,
    RateLimited,
    Paused,
}

/// The HTTP status a refused paint is answered with: 400 for an invalid
/// pixel, 401 for a missing or unknown token, 429 past the rate limit, 503
/// in maintenance mode.
pub fn status_code(e: &ApiError) -> (c: u16)
    ensures
        c == match e {
            ApiError::Pixel(_) => 400u16,
            ApiError::Unauthorized => 401u16,
            ApiError::RateLimited => 429u16,
            ApiError::Paused => 503u16,
        },
{
    match e {
        ApiError::Pixel(_) => 400,
        ApiError::Unauthorized => 401,
        ApiError::RateLimited => 429,
        ApiError::Paused => 503,
    }
}

} // verus!
