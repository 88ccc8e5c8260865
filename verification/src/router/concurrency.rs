//! Timeouts of requests: the default timeout, and what a timed-out
//! operation or request gives. Waiting is left to the caller.

use vstd::prelude::*;

use super::request::{ErrorInfo, RouteResponse};
use crate::utils::error::{CoreError, ErrorView};
use crate::utils::status_code;
use crate::utils::text::{decimal, decimal_string};

verus! {

/// The default timeout of requests, in milliseconds.
#[derive(Debug, Clone, Copy)]
pub struct TimeoutManager {
    default_timeout_ms: u64,
}

impl TimeoutManager {
    /// The default timeout, in milliseconds.
    pub closed spec fn timeout_ms(&self) -> u64 {
        self.default_timeout_ms
    }

    /// A manager with default timeout `default_timeout_ms`.
    pub fn new(default_timeout_ms: u64) -> (r: Self)
        ensures
            r.timeout_ms() == default_timeout_ms,
    {
        TimeoutManager { default_timeout_ms }
    }

    /// A manager with a default timeout of 30 seconds.
    pub fn default_manager() -> (r: Self)
        ensures
            r.timeout_ms() == 30000,
    {
        Self::new(30000)
    }

    /// The default timeout, in milliseconds.
    pub fn default_timeout(&self) -> (r: u64)
        ensures
            r == self.timeout_ms(),
    {
        self.default_timeout_ms
    }

    /// Sets the default timeout.
    pub fn set_default_timeout(&mut self, timeout_ms: u64)
        ensures
            final(self).timeout_ms() == timeout_ms,
    {
        self.default_timeout_ms = timeout_ms;
    }
}

/// The error of an operation that ran out of its `timeout_ms`.
pub fn timeout_error(timeout_ms: u64) -> (r: CoreError)
    ensures
        r@ == ErrorView::Timeout("Operation timed out after "@ + decimal(timeout_ms as nat) + "ms"@),
{
    let n = decimal_string(timeout_ms);
    let mut m = String::from_str("Operation timed out after ");
    m.append(n.as_str());
    m.append("ms");
    CoreError::Timeout(m)
}

/// The response to request `request_id` that ran out of its `timeout_ms`:
/// status 408 with error `TIMEOUT`.
pub fn timeout_response(request_id: &str, timeout_ms: u64) -> (r: RouteResponse)
    ensures
        r.request_id@ == request_id@,
        r.status == status_code::TIMEOUT,
        r.data is None,
        r.error matches Some(e) && e.code@ == "TIMEOUT"@ && e.message@ == "Request timed out after "@ + decimal(
            timeout_ms as nat,
        ) + "ms"@ && e.details is None,
        r.elapsed_ms == timeout_ms,
{
    let n = decimal_string(timeout_ms);
    let mut m = String::from_str("Request timed out after ");
    m.append(n.as_str());
    m.append("ms");
    RouteResponse::error(request_id, status_code::TIMEOUT, ErrorInfo::new("TIMEOUT", m.as_str()), timeout_ms)
}

} // verus!
