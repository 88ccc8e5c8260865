//! Request counts and latencies of the router.

use vstd::prelude::*;

verus! {

/// Request counts and latencies, in microseconds. Counts and the latency
/// total wrap around at `u64::MAX`.
#[derive(Debug, Clone, Copy, PartialEq, Eq, Structural)]
pub struct RouterStats {
    /// Requests handled.
    pub total_requests: u64,
    /// Requests that succeeded.
    pub successful_requests: u64,
    /// Requests that failed.
    pub failed_requests: u64,
    /// Requests that timed out.
    pub timeout_requests: u64,
    /// Sum of the latencies.
    pub total_latency_us: u64,
    /// Lowest latency; `u64::MAX` before any request.
    pub min_latency_us: u64,
    /// Highest latency; 0 before any request.
    pub max_latency_us: u64,
}

/// A summary of the counts.
#[derive(Debug, Clone, Copy, PartialEq, Eq, Structural)]
pub struct RouterStatsSnapshot {
    /// Requests handled.
    pub total_requests: u64,
    /// Requests that succeeded.
    pub successful_requests: u64,
    /// Requests that failed.
    pub failed_requests: u64,
    /// Requests that timed out.
    pub timeout_requests: u64,
    /// Mean latency, rounded down; 0 before any request.
    pub avg_latency_us: u64,
    /// Lowest latency; 0 before any request.
    pub min_latency_us: u64,
    /// Highest latency.
    pub max_latency_us: u64,
}

/// The counts before any request.
pub open spec fn fresh_stats() -> RouterStats {
    RouterStats {
        total_requests: 0,
        successful_requests: 0,
        failed_requests: 0,
        timeout_requests: 0,
        total_latency_us: 0,
        min_latency_us: u64::MAX,
        max_latency_us: 0,
    }
}

impl RouterStats {
    /// The counts before any request.
    pub fn new() -> (r: Self)
        ensures
            r == fresh_stats(),
    {
        RouterStats {
            total_requests: 0,
            successful_requests: 0,
            failed_requests: 0,
            timeout_requests: 0,
            total_latency_us: 0,
            min_latency_us: u64::MAX,
            max_latency_us: 0,
        }
    }

    /// Records a request: whether it succeeded, its latency, and whether it
    /// timed out.
    pub fn record(&mut self, success: bool, latency_us: u64, timeout: bool)
        ensures
            *final(self) == (RouterStats {
                total_requests: old(self).total_requests.wrapping_add(1),
                successful_requests: if success { old(self).successful_requests.wrapping_add(1) } else { old(self).successful_requests },
                failed_requests: if success { old(self).failed_requests } else { old(self).failed_requests.wrapping_add(1) },
                timeout_requests: if timeout { old(self).timeout_requests.wrapping_add(1) } else { old(self).timeout_requests },
                total_latency_us: old(self).total_latency_us.wrapping_add(latency_us),
                min_latency_us: if latency_us < old(self).min_latency_us { latency_us } else { old(self).min_latency_us },
                max_latency_us: if latency_us > old(self).max_latency_us { latency_us } else { old(self).max_latency_us },
            }),
    {
        self.total_requests = self.total_requests.wrapping_add(1);
        self.total_latency_us = self.total_latency_us.wrapping_add(latency_us);
        if success {
            self.successful_requests = self.successful_requests.wrapping_add(1);
        } else {
            self.failed_requests = self.failed_requests.wrapping_add(1);
        }
        if timeout {
            self.timeout_requests = self.timeout_requests.wrapping_add(1);
        }
        if latency_us < self.min_latency_us {
            self.min_latency_us = latency_us;
        }
        if latency_us > self.max_latency_us {
            self.max_latency_us = latency_us;
        }
    }

    /// A summary of the counts.
    pub fn snapshot(&self) -> (r: RouterStatsSnapshot)
        ensures
            r.total_requests == self.total_requests,
            r.successful_requests == self.successful_requests,
            r.failed_requests == self.failed_requests,
            r.timeout_requests == self.timeout_requests,
            r.avg_latency_us == if self.total_requests > 0 { self.total_latency_us / self.total_requests } else { 0 },
            r.min_latency_us == if self.min_latency_us == u64::MAX { 0 } else { self.min_latency_us },
            r.max_latency_us == self.max_latency_us,
    {
        RouterStatsSnapshot {
            total_requests: self.total_requests,
            successful_requests: self.successful_requests,
            failed_requests: self.failed_requests,
            timeout_requests: self.timeout_requests,
            avg_latency_us: if self.total_requests > 0 { self.total_latency_us / self.total_requests } else { 0 },
            min_latency_us: if self.min_latency_us == u64::MAX { 0 } else { self.min_latency_us },
            max_latency_us: self.max_latency_us,
        }
    }

    /// Sets the counts back to before any request.
    pub fn reset(&mut self)
        ensures
            *final(self) == fresh_stats(),
    {
        *self = RouterStats::new();
    }
}

/// Once a request has been recorded, the lowest latency is at most the
/// highest, and each request's latency lies between them.
pub proof fn lemma_record_bounds(s: RouterStats, latency_us: u64)
    requires
        s.total_requests == 0 ==> s == fresh_stats(),
        s.total_requests > 0 ==> s.min_latency_us <= s.max_latency_us,
    ensures
        ({
            let min = if latency_us < s.min_latency_us { latency_us } else { s.min_latency_us };
            let max = if latency_us > s.max_latency_us { latency_us } else { s.max_latency_us };
            min <= latency_us <= max && min <= max
        }),
{
}

} // verus!
