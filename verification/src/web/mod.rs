//! Web-facing logic.

pub mod auth;
pub mod error;
pub mod locale;
pub mod pdf;
pub mod quality;
pub mod validation;
pub mod warp;

use vstd::prelude::*;

verus! {

/// Default limit for JSON request bodies (10 MB).
pub const DEFAULT_MAX_JSON_BODY_SIZE: u64 = 10_000_000;

} // verus!
