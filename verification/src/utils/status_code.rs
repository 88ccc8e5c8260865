//! HTTP-style status codes carried by responses.

use vstd::prelude::*;

verus! {

/// Success.
pub const OK: u16 = 200;
/// Accepted, processing asynchronously.
pub const ACCEPTED: u16 = 202;
/// Malformed request.
pub const BAD_REQUEST: u16 = 400;
/// Not authorised.
pub const UNAUTHORIZED: u16 = 401;
/// Permission denied.
pub const FORBIDDEN: u16 = 403;
/// Not found.
pub const NOT_FOUND: u16 = 404;
/// Request timed out.
pub const TIMEOUT: u16 = 408;
/// Conflict.
pub const CONFLICT: u16 = 409;
/// Internal error.
pub const INTERNAL_ERROR: u16 = 500;
/// Service unavailable.
pub const SERVICE_UNAVAILABLE: u16 = 503;

} // verus!
