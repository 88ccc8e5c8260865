//! Performance metrics of routing and the resource monitor: counters,
//! latency extremes and percentiles over a window of samples, and resource
//! thresholds with their alerts. Measuring the process, the clock and rates
//! as fractions are left to the caller; times are milliseconds since the
//! Unix epoch, latencies microseconds.

use vstd::prelude::*;
use vstd::relations::{sorted_by, total_ordering};

verus! {

/// Most latency samples kept.
pub const MAX_LATENCY_SAMPLES: usize = 10000;

/// Default memory alert threshold, in MiB.
pub const DEFAULT_MEMORY_THRESHOLD_MB: u64 = 512;

/// Default thread-count alert threshold.
pub const DEFAULT_THREAD_THRESHOLD: u64 = 100;

/// The order of latencies.
pub open spec fn latency_le() -> spec_fn(u64, u64) -> bool {
    |a: u64, b: u64| a <= b
}

/// The samples kept after `latency` is recorded: when the window is full,
/// its older half is dropped first.
pub open spec fn window_push(s: Seq<u64>, latency: u64) -> Seq<u64> {
    if s.len() >= MAX_LATENCY_SAMPLES {
        s.skip((s.len() / 2) as int).push(latency)
    } else {
        s.push(latency)
    }
}

/// The 0-based rank the nearest-rank method picks for `percent` per cent
/// of `n` samples: the ceiling of `n * percent / 100`, less one, at least
/// 0 and at most `n - 1`.
pub open spec fn nearest_rank(n: nat, percent: nat) -> nat {
    let c = (n * percent + 99) / 100;
    let i: nat = if c == 0 { 0 } else { (c - 1) as nat };
    if n == 0 { 0 } else if i > n - 1 { (n - 1) as nat } else { i }
}

/// What a collector holds.
pub ghost struct MetricsState {
    /// Requests recorded.
    pub total: u64,
    /// Requests that succeeded.
    pub successes: u64,
    /// Requests that failed.
    pub failures: u64,
    /// Sum of the latencies.
    pub latency_sum: u64,
    /// Least latency, `u64::MAX` before any.
    pub min: u64,
    /// Greatest latency, 0 before any.
    pub max: u64,
    /// The latency samples kept, in the order held.
    pub samples: Seq<u64>,
    /// When collecting started.
    pub start: i64,
}

/// A collector started at `now` that has recorded nothing.
pub open spec fn fresh_metrics(now: i64) -> MetricsState {
    MetricsState {
        total: 0,
        successes: 0,
        failures: 0,
        latency_sum: 0,
        min: u64::MAX,
        max: 0,
        samples: Seq::empty(),
        start: now,
    }
}

/// Collects routing metrics.
#[derive(Debug, Clone)]
pub struct MetricsCollector {
    route_total_count: u64,
    route_success_count: u64,
    route_failure_count: u64,
    route_total_latency_us: u64,
    route_min_latency_us: u64,
    route_max_latency_us: u64,
    latency_samples: Vec<u64>,
    start_time: i64,
}

impl View for MetricsCollector {
    type V = MetricsState;

    closed spec fn view(&self) -> MetricsState {
        MetricsState {
            total: self.route_total_count,
            successes: self.route_success_count,
            failures: self.route_failure_count,
            latency_sum: self.route_total_latency_us,
            min: self.route_min_latency_us,
            max: self.route_max_latency_us,
            samples: self.latency_samples@,
            start: self.start_time,
        }
    }
}

/// Latency summary of a report.
#[derive(Debug, Clone, Copy, PartialEq, Eq, Structural)]
pub struct LatencyMetrics {
    /// Mean latency.
    pub avg_latency_us: u64,
    /// Least latency.
    pub min_latency_us: u64,
    /// Greatest latency.
    pub max_latency_us: u64,
    /// Median latency.
    pub p50_latency_us: u64,
    /// 95th percentile.
    pub p95_latency_us: u64,
    /// 99th percentile.
    pub p99_latency_us: u64,
}

/// Sorts latencies in ascending order with std's `sort_unstable`.
///
/// Trusted: std documents that the slice ends sorted, a permutation of
/// what it held.
#[verifier::external_body]
fn sort_latencies(v: &mut Vec<u64>)
    ensures
        sorted_by(final(v)@, latency_le()),
        final(v)@.to_multiset() == old(v)@.to_multiset(),
{
    v.sort_unstable();
}

/// The order of latencies is total.
pub proof fn lemma_latency_le_total()
    ensures
        total_ordering(latency_le()),
{
}

/// Sorting sorted latencies changes nothing, and sorting keeps the number
/// of latencies.
pub proof fn lemma_sort_idempotent(s: Seq<u64>)
    ensures
        s.sort_by(latency_le()).sort_by(latency_le()) == s.sort_by(latency_le()),
        s.sort_by(latency_le()).len() == s.len(),
{
    lemma_latency_le_total();
    s.lemma_sort_by_ensures(latency_le());
    s.to_multiset_ensures();
    s.sort_by(latency_le()).to_multiset_ensures();
    s.sort_by(latency_le()).lemma_sort_by_ensures(latency_le());
    vstd::seq_lib::lemma_sorted_unique(
        s.sort_by(latency_le()).sort_by(latency_le()),
        s.sort_by(latency_le()),
        latency_le(),
    );
}

/// A larger percentage never picks a smaller rank.
proof fn lemma_nearest_rank_monotone(n: nat, p: nat, q: nat)
    requires
        p <= q,
    ensures
        nearest_rank(n, p) <= nearest_rank(n, q),
{
    assert(n * p <= n * q) by (nonlinear_arith)
        requires
            p <= q,
    ;
    assert((n * p + 99) / 100 <= (n * q + 99) / 100) by (nonlinear_arith)
        requires
            n * p <= n * q,
    ;
}

/// Recording keeps the newest samples: the window after recording
/// `latency` is the latest part of the samples followed by `latency`
/// (a suffix of everything recorded so far), holding every sample while
/// the window has room and, once it is full, the newer half of the old
/// samples and the new one. It never grows beyond its bound.
pub proof fn lemma_window_keeps_newest(s: Seq<u64>, latency: u64)
    requires
        s.len() <= MAX_LATENCY_SAMPLES,
    ensures
        window_push(s, latency).len() == if s.len() >= MAX_LATENCY_SAMPLES {
            s.len() - s.len() / 2 + 1
        } else {
            s.len() + 1int
        },
        window_push(s, latency) == s.push(latency).skip(s.push(latency).len() - window_push(s, latency).len()),
        window_push(s, latency).len() <= MAX_LATENCY_SAMPLES,
        window_push(s, latency).last() == latency,
{
    let r = window_push(s, latency);
    let full = s.push(latency);
    assert(r =~= full.skip(full.len() - r.len()));
}

/// Percentiles are ordered: of the same samples, the value at a smaller
/// percentage is never above the value at a larger one, and both lie
/// between the least and the greatest sample (so P50 <= P95 <= P99).
pub proof fn lemma_percentiles_ordered(s: Seq<u64>, p: nat, q: nat)
    requires
        s.len() > 0,
        p <= q,
    ensures
        nearest_rank(s.len(), q) < s.len(),
        s.sort_by(latency_le())[nearest_rank(s.len(), p) as int] <= s.sort_by(latency_le())[nearest_rank(
            s.len(),
            q,
        ) as int],
        s.sort_by(latency_le())[0] <= s.sort_by(latency_le())[nearest_rank(s.len(), p) as int],
        s.sort_by(latency_le())[nearest_rank(s.len(), q) as int] <= s.sort_by(latency_le())[s.len() - 1],
{
    let t = s.sort_by(latency_le());
    lemma_sort_idempotent(s);
    lemma_latency_le_total();
    s.lemma_sort_by_ensures(latency_le());
    lemma_nearest_rank_monotone(s.len(), p, q);
    let i = nearest_rank(s.len(), p) as int;
    let j = nearest_rank(s.len(), q) as int;
    let n = s.len() as int;
    if i < j {
        assert(latency_le()(t[i], t[j]));
    }
    if 0 < i {
        assert(latency_le()(t[0], t[i]));
    }
    if j < n - 1 {
        assert(latency_le()(t[j], t[n - 1]));
    }
}

impl MetricsCollector {
    /// The collector's invariant: the window holds at most
    /// [`MAX_LATENCY_SAMPLES`] samples.
    pub open spec fn wf(&self) -> bool {
        self@.samples.len() <= MAX_LATENCY_SAMPLES
    }

    /// An empty collector started at `now`.
    pub fn new(now: i64) -> (r: Self)
        ensures
            r.wf(),
            r@ == fresh_metrics(now),
    {
        MetricsCollector {
            route_total_count: 0,
            route_success_count: 0,
            route_failure_count: 0,
            route_total_latency_us: 0,
            route_min_latency_us: u64::MAX,
            route_max_latency_us: 0,
            latency_samples: Vec::new(),
            start_time: now,
        }
    }

    /// Records a request that succeeded or not, with its latency: the
    /// counters wrap on overflow, the extremes follow the latency, and the
    /// latency joins the window (see [`window_push`]).
    pub fn record_route(&mut self, success: bool, latency_us: u64)
        requires
            old(self).wf(),
        ensures
            final(self).wf(),
            final(self)@ == (MetricsState {
                total: old(self)@.total.wrapping_add(1),
                successes: if success { old(self)@.successes.wrapping_add(1) } else { old(self)@.successes },
                failures: if success { old(self)@.failures } else { old(self)@.failures.wrapping_add(1) },
                latency_sum: old(self)@.latency_sum.wrapping_add(latency_us),
                min: if latency_us < old(self)@.min { latency_us } else { old(self)@.min },
                max: if latency_us > old(self)@.max { latency_us } else { old(self)@.max },
                samples: window_push(old(self)@.samples, latency_us),
                start: old(self)@.start,
            }),
    {
        self.route_total_count = self.route_total_count.wrapping_add(1);
        self.route_total_latency_us = self.route_total_latency_us.wrapping_add(latency_us);
        if success {
            self.route_success_count = self.route_success_count.wrapping_add(1);
        } else {
            self.route_failure_count = self.route_failure_count.wrapping_add(1);
        }
        if latency_us < self.route_min_latency_us {
            self.route_min_latency_us = latency_us;
        }
        if latency_us > self.route_max_latency_us {
            self.route_max_latency_us = latency_us;
        }
        if self.latency_samples.len() >= MAX_LATENCY_SAMPLES {
            let half = self.latency_samples.len() / 2;
            let mut kept: Vec<u64> = Vec::new();
            let mut i: usize = half;
            while i < self.latency_samples.len()
                invariant
                    half <= i <= self.latency_samples.len(),
                    kept@ == self.latency_samples@.subrange(half as int, i as int),
                decreases self.latency_samples.len() - i,
            {
                kept.push(self.latency_samples[i]);
                proof {
                    assert(kept@ =~= self.latency_samples@.subrange(half as int, i + 1));
                }
                i = i + 1;
            }
            proof {
                assert(kept@ =~= self.latency_samples@.skip(half as int));
            }
            self.latency_samples = kept;
        }
        self.latency_samples.push(latency_us);
    }

    /// The latency at 0-based rank `rank` (at most the last) of the samples
    /// in ascending order, or 0 without samples. The samples are left
    /// sorted.
    pub fn value_at_rank(&mut self, rank: usize) -> (r: u64)
        requires
            old(self).wf(),
        ensures
            final(self).wf(),
            final(self)@ == (MetricsState { samples: final(self)@.samples, ..old(self)@ }),
            final(self)@.samples == old(self)@.samples.sort_by(latency_le()),
            old(self)@.samples.len() == 0 ==> r == 0,
            old(self)@.samples.len() > 0 ==> r == old(self)@.samples.sort_by(latency_le())[
                if rank >= old(self)@.samples.len() { old(self)@.samples.len() - 1 } else { rank as int }
            ],
    {
        let ghost before = self.latency_samples@;
        sort_latencies(&mut self.latency_samples);
        proof {
            lemma_latency_le_total();
            before.lemma_sort_by_ensures(latency_le());
            vstd::seq_lib::lemma_sorted_unique(self.latency_samples@, before.sort_by(latency_le()), latency_le());
            before.to_multiset_ensures();
            self.latency_samples@.to_multiset_ensures();
        }
        let n = self.latency_samples.len();
        if n == 0 {
            return 0;
        }
        let i = if rank >= n { n - 1 } else { rank };
        self.latency_samples[i]
    }

    /// The latency at `percent` per cent of the samples by the
    /// nearest-rank method, or 0 without samples; the samples are left
    /// sorted.
    fn percentile_percent(&mut self, percent: u64) -> (r: u64)
        requires
            old(self).wf(),
            percent <= 100,
        ensures
            final(self).wf(),
            final(self)@ == (MetricsState { samples: old(self)@.samples.sort_by(latency_le()), ..old(self)@ }),
            old(self)@.samples.len() == 0 ==> r == 0,
            old(self)@.samples.len() > 0 ==> r == old(self)@.samples.sort_by(latency_le())[nearest_rank(
                old(self)@.samples.len(),
                percent as nat,
            ) as int],
    {
        let n = self.latency_samples.len();
        assert(n * (percent as usize) <= 1000000) by (nonlinear_arith)
            requires
                n <= 10000,
                percent <= 100,
        ;
        let c = (n * (percent as usize) + 99) / 100;
        let rank = if c == 0 { 0 } else { c - 1 };
        let r = self.value_at_rank(rank);
        proof {
            if n > 0 {
                assert(nearest_rank(n as nat, percent as nat) == if rank >= n { (n - 1) as nat } else { rank as nat });
            }
        }
        r
    }

    /// The median latency (see [`nearest_rank`]); the samples are left
    /// sorted.
    pub fn get_p50_latency(&mut self) -> (r: u64)
        requires
            old(self).wf(),
        ensures
            final(self).wf(),
            final(self)@ == (MetricsState { samples: old(self)@.samples.sort_by(latency_le()), ..old(self)@ }),
            old(self)@.samples.len() == 0 ==> r == 0,
            old(self)@.samples.len() > 0 ==> r == old(self)@.samples.sort_by(latency_le())[nearest_rank(
                old(self)@.samples.len(),
                50,
            ) as int],
    {
        self.percentile_percent(50)
    }

    /// The 95th percentile latency (see [`nearest_rank`]); the samples are
    /// left sorted.
    pub fn get_p95_latency(&mut self) -> (r: u64)
        requires
            old(self).wf(),
        ensures
            final(self).wf(),
            final(self)@ == (MetricsState { samples: old(self)@.samples.sort_by(latency_le()), ..old(self)@ }),
            old(self)@.samples.len() == 0 ==> r == 0,
            old(self)@.samples.len() > 0 ==> r == old(self)@.samples.sort_by(latency_le())[nearest_rank(
                old(self)@.samples.len(),
                95,
            ) as int],
    {
        self.percentile_percent(95)
    }

    /// The 99th percentile latency (see [`nearest_rank`]); the samples are
    /// left sorted.
    pub fn get_p99_latency(&mut self) -> (r: u64)
        requires
            old(self).wf(),
        ensures
            final(self).wf(),
            final(self)@ == (MetricsState { samples: old(self)@.samples.sort_by(latency_le()), ..old(self)@ }),
            old(self)@.samples.len() == 0 ==> r == 0,
            old(self)@.samples.len() > 0 ==> r == old(self)@.samples.sort_by(latency_le())[nearest_rank(
                old(self)@.samples.len(),
                99,
            ) as int],
    {
        self.percentile_percent(99)
    }

    /// The mean latency, rounded down; 0 before any request.
    pub fn get_average_latency(&self) -> (r: u64)
        ensures
            r == if self@.total == 0 { 0 } else { self@.latency_sum / self@.total },
    {
        if self.route_total_count == 0 {
            return 0;
        }
        self.route_total_latency_us / self.route_total_count
    }

    /// The least latency; 0 before any request.
    pub fn get_min_latency(&self) -> (r: u64)
        ensures
            r == if self@.min == u64::MAX { 0 } else { self@.min },
    {
        if self.route_min_latency_us == u64::MAX {
            0
        } else {
            self.route_min_latency_us
        }
    }

    /// The greatest latency; 0 before any request.
    pub fn get_max_latency(&self) -> (r: u64)
        ensures
            r == self@.max,
    {
        self.route_max_latency_us
    }

    /// Requests recorded.
    pub fn get_total_requests(&self) -> (r: u64)
        ensures
            r == self@.total,
    {
        self.route_total_count
    }

    /// Requests that succeeded.
    pub fn get_success_count(&self) -> (r: u64)
        ensures
            r == self@.successes,
    {
        self.route_success_count
    }

    /// Requests that failed.
    pub fn get_failure_count(&self) -> (r: u64)
        ensures
            r == self@.failures,
    {
        self.route_failure_count
    }

    /// Number of latency samples kept.
    pub fn sample_count(&self) -> (r: usize)
        ensures
            r == self@.samples.len(),
    {
        self.latency_samples.len()
    }

    /// When collecting started.
    pub fn start_time(&self) -> (r: i64)
        ensures
            r == self@.start,
    {
        self.start_time
    }

    /// The latency summary: mean, extremes, then the median, 95th and 99th
    /// percentiles; the samples are left sorted.
    pub fn latency_metrics(&mut self) -> (r: LatencyMetrics)
        requires
            old(self).wf(),
        ensures
            final(self).wf(),
            final(self)@ == (MetricsState { samples: old(self)@.samples.sort_by(latency_le()), ..old(self)@ }),
            r.avg_latency_us == if old(self)@.total == 0 { 0 } else { old(self)@.latency_sum / old(self)@.total },
            r.min_latency_us == if old(self)@.min == u64::MAX { 0 } else { old(self)@.min },
            r.max_latency_us == old(self)@.max,
            old(self)@.samples.len() == 0 ==> r.p50_latency_us == 0 && r.p95_latency_us == 0 && r.p99_latency_us == 0,
            old(self)@.samples.len() > 0 ==> {
                let s = old(self)@.samples.sort_by(latency_le());
                let n = old(self)@.samples.len();
                &&& r.p50_latency_us == s[nearest_rank(n, 50) as int]
                &&& r.p95_latency_us == s[nearest_rank(n, 95) as int]
                &&& r.p99_latency_us == s[nearest_rank(n, 99) as int]
            },
            r.p50_latency_us <= r.p95_latency_us <= r.p99_latency_us,
    {
        proof {
            if self@.samples.len() > 0 {
                lemma_percentiles_ordered(self@.samples, 50, 95);
                lemma_percentiles_ordered(self@.samples, 95, 99);
            }
        }
        let avg = self.get_average_latency();
        let min = self.get_min_latency();
        let max = self.get_max_latency();
        let ghost s0 = self@.samples;
        proof {
            lemma_sort_idempotent(s0);
        }
        let p50 = self.get_p50_latency();
        let p95 = self.get_p95_latency();
        let p99 = self.get_p99_latency();
        LatencyMetrics {
            avg_latency_us: avg,
            min_latency_us: min,
            max_latency_us: max,
            p50_latency_us: p50,
            p95_latency_us: p95,
            p99_latency_us: p99,
        }
    }

    /// Clears the counters, extremes and samples; the start time stays.
    pub fn reset(&mut self)
        ensures
            final(self).wf(),
            final(self)@ == (MetricsState {
                total: 0,
                successes: 0,
                failures: 0,
                latency_sum: 0,
                min: u64::MAX,
                max: 0,
                samples: Seq::empty(),
                start: old(self)@.start,
            }),
    {
        self.route_total_count = 0;
        self.route_success_count = 0;
        self.route_failure_count = 0;
        self.route_total_latency_us = 0;
        self.route_min_latency_us = u64::MAX;
        self.route_max_latency_us = 0;
        self.latency_samples.clear();
    }
}

/// The default thresholds: 512 MiB, 100 threads, alerts on.
pub open spec fn default_thresholds() -> ResourceMonitorConfig {
    ResourceMonitorConfig {
        memory_threshold_mb: DEFAULT_MEMORY_THRESHOLD_MB,
        thread_threshold: DEFAULT_THREAD_THRESHOLD,
        alerts_enabled: true,
    }
}

/// Thresholds of the resource monitor.
#[derive(Debug, Clone, Copy, PartialEq, Eq, Structural)]
pub struct ResourceMonitorConfig {
    /// Memory above which an alert is raised, in MiB.
    pub memory_threshold_mb: u64,
    /// Thread count above which an alert is raised.
    pub thread_threshold: u64,
    /// Whether alerts are counted.
    pub alerts_enabled: bool,
}

impl Default for ResourceMonitorConfig {
    /// 512 MiB, 100 threads, alerts on.
    fn default() -> (r: Self)
        ensures
            r == default_thresholds(),
    {
        ResourceMonitorConfig {
            memory_threshold_mb: DEFAULT_MEMORY_THRESHOLD_MB,
            thread_threshold: DEFAULT_THREAD_THRESHOLD,
            alerts_enabled: true,
        }
    }
}

/// The outcome of one resource check.
#[derive(Debug, Clone, Copy, PartialEq, Eq, Structural)]
pub struct ResourceStatus {
    /// Memory in use, in MiB.
    pub memory_mb: u64,
    /// Whether it is above the threshold.
    pub memory_warning: bool,
    /// Threads of the process.
    pub thread_count: u64,
    /// Whether they are above the threshold.
    pub thread_warning: bool,
    /// When the check was made.
    pub checked_at: i64,
}

/// Resource figures of a report.
#[derive(Debug, Clone, Copy, PartialEq, Eq, Structural)]
pub struct ResourceMetrics {
    /// Memory in use, in MiB.
    pub memory_mb: u64,
    /// Whether it is above the threshold.
    pub memory_warning: bool,
    /// Threads of the process.
    pub thread_count: u64,
    /// Whether they are above the threshold.
    pub thread_warning: bool,
}

/// Watches memory and threads against thresholds and counts alerts.
#[derive(Debug, Clone, Copy)]
pub struct ResourceMonitor {
    config: ResourceMonitorConfig,
    last_status: Option<ResourceStatus>,
    alert_count: u64,
}

impl ResourceMonitor {
    /// The thresholds.
    pub closed spec fn config_of(&self) -> ResourceMonitorConfig {
        self.config
    }

    /// The outcome of the last check, if any.
    pub closed spec fn last_of(&self) -> Option<ResourceStatus> {
        self.last_status
    }

    /// Alerts raised.
    pub closed spec fn alerts_of(&self) -> u64 {
        self.alert_count
    }

    /// A monitor with the default thresholds.
    pub fn new() -> (r: Self)
        ensures
            r.config_of() == default_thresholds(),
            r.last_of() is None,
            r.alerts_of() == 0,
    {
        Self::with_config(ResourceMonitorConfig::default())
    }

    /// A monitor with thresholds `config`.
    pub fn with_config(config: ResourceMonitorConfig) -> (r: Self)
        ensures
            r.config_of() == config,
            r.last_of() is None,
            r.alerts_of() == 0,
    {
        ResourceMonitor { config, last_status: None, alert_count: 0 }
    }

    /// Replaces the thresholds.
    pub fn update_config(&mut self, config: ResourceMonitorConfig)
        ensures
            final(self).config_of() == config,
            final(self).last_of() == old(self).last_of(),
            final(self).alerts_of() == old(self).alerts_of(),
    {
        self.config = config;
    }

    /// The thresholds.
    pub fn get_config(&self) -> (r: ResourceMonitorConfig)
        ensures
            r == self.config_of(),
    {
        self.config
    }

    /// Sets the memory threshold.
    pub fn set_memory_threshold(&mut self, threshold_mb: u64)
        ensures
            final(self).config_of() == (ResourceMonitorConfig {
                memory_threshold_mb: threshold_mb,
                ..old(self).config_of()
            }),
            final(self).last_of() == old(self).last_of(),
            final(self).alerts_of() == old(self).alerts_of(),
    {
        self.config.memory_threshold_mb = threshold_mb;
    }

    /// Sets the thread-count threshold.
    pub fn set_thread_threshold(&mut self, threshold: u64)
        ensures
            final(self).config_of() == (ResourceMonitorConfig { thread_threshold: threshold, ..old(self).config_of() }),
            final(self).last_of() == old(self).last_of(),
            final(self).alerts_of() == old(self).alerts_of(),
    {
        self.config.thread_threshold = threshold;
    }

    /// Turns alert counting on or off.
    pub fn set_alerts_enabled(&mut self, enabled: bool)
        ensures
            final(self).config_of() == (ResourceMonitorConfig { alerts_enabled: enabled, ..old(self).config_of() }),
            final(self).last_of() == old(self).last_of(),
            final(self).alerts_of() == old(self).alerts_of(),
    {
        self.config.alerts_enabled = enabled;
    }

    /// Checks measured `memory_mb` and `thread_count` at time `now`: each
    /// is flagged when above its threshold, and with alerts on each flag
    /// counts an alert (the count wraps on overflow). The outcome is kept
    /// as the last status and returned.
    pub fn check_resources_with(&mut self, memory_mb: u64, thread_count: u64, now: i64) -> (r: ResourceStatus)
        ensures
            r == (ResourceStatus {
                memory_mb,
                memory_warning: memory_mb > old(self).config_of().memory_threshold_mb,
                thread_count,
                thread_warning: thread_count > old(self).config_of().thread_threshold,
                checked_at: now,
            }),
            final(self).config_of() == old(self).config_of(),
            final(self).last_of() == Some(r),
            final(self).alerts_of() == if old(self).config_of().alerts_enabled {
                if r.memory_warning && r.thread_warning {
                    old(self).alerts_of().wrapping_add(1).wrapping_add(1)
                } else if r.memory_warning || r.thread_warning {
                    old(self).alerts_of().wrapping_add(1)
                } else {
                    old(self).alerts_of()
                }
            } else {
                old(self).alerts_of()
            },
    {
        let config = self.config;
        let memory_warning = memory_mb > config.memory_threshold_mb;
        let thread_warning = thread_count > config.thread_threshold;
        if config.alerts_enabled {
            if memory_warning {
                self.alert_count = self.alert_count.wrapping_add(1);
            }
            if thread_warning {
                self.alert_count = self.alert_count.wrapping_add(1);
            }
        }
        let status = ResourceStatus { memory_mb, memory_warning, thread_count, thread_warning, checked_at: now };
        self.last_status = Some(status);
        status
    }

    /// The outcome of the last check, if any.
    pub fn get_last_status(&self) -> (r: Option<ResourceStatus>)
        ensures
            r == self.last_of(),
    {
        self.last_status
    }

    /// Alerts raised.
    pub fn get_alert_count(&self) -> (r: u64)
        ensures
            r == self.alerts_of(),
    {
        self.alert_count
    }

    /// Sets the alert count back to 0.
    pub fn reset_alert_count(&mut self)
        ensures
            final(self).alerts_of() == 0,
            final(self).config_of() == old(self).config_of(),
            final(self).last_of() == old(self).last_of(),
    {
        self.alert_count = 0;
    }
}

/// Routing metrics and the resource monitor together.
#[derive(Debug, Clone)]
pub struct MonitoringSystem {
    /// Routing metrics.
    pub metrics: MetricsCollector,
    /// The resource monitor.
    pub resources: ResourceMonitor,
}

/// The resource figures of a check.
pub open spec fn resource_figures(s: ResourceStatus) -> ResourceMetrics {
    ResourceMetrics {
        memory_mb: s.memory_mb,
        memory_warning: s.memory_warning,
        thread_count: s.thread_count,
        thread_warning: s.thread_warning,
    }
}

impl MonitoringSystem {
    /// A system started at `now`, with the default thresholds.
    pub fn new(now: i64) -> (r: Self)
        ensures
            r.metrics.wf(),
            r.metrics@ == fresh_metrics(now),
            r.resources.config_of() == default_thresholds(),
            r.resources.last_of() is None,
            r.resources.alerts_of() == 0,
    {
        MonitoringSystem { metrics: MetricsCollector::new(now), resources: ResourceMonitor::new() }
    }

    /// A system started at `now`, with thresholds `resource_config`.
    pub fn with_config(resource_config: ResourceMonitorConfig, now: i64) -> (r: Self)
        ensures
            r.metrics.wf(),
            r.metrics@ == fresh_metrics(now),
            r.resources.config_of() == resource_config,
            r.resources.last_of() is None,
            r.resources.alerts_of() == 0,
    {
        MonitoringSystem { metrics: MetricsCollector::new(now), resources: ResourceMonitor::with_config(resource_config) }
    }

    /// Records a request in the routing metrics.
    pub fn record_route(&mut self, success: bool, latency_us: u64)
        requires
            old(self).metrics.wf(),
        ensures
            final(self).metrics.wf(),
            final(self).metrics@ == (MetricsState {
                total: old(self).metrics@.total.wrapping_add(1),
                successes: if success {
                    old(self).metrics@.successes.wrapping_add(1)
                } else {
                    old(self).metrics@.successes
                },
                failures: if success { old(self).metrics@.failures } else { old(self).metrics@.failures.wrapping_add(1) },
                latency_sum: old(self).metrics@.latency_sum.wrapping_add(latency_us),
                min: if latency_us < old(self).metrics@.min { latency_us } else { old(self).metrics@.min },
                max: if latency_us > old(self).metrics@.max { latency_us } else { old(self).metrics@.max },
                samples: window_push(old(self).metrics@.samples, latency_us),
                start: old(self).metrics@.start,
            }),
            final(self).resources == old(self).resources,
    {
        self.metrics.record_route(success, latency_us);
    }

    /// The resource figures of the last check, if any.
    pub fn resource_metrics(&self) -> (r: Option<ResourceMetrics>)
        ensures
            match self.resources.last_of() {
                None => r is None,
                Some(s) => r == Some(resource_figures(s)),
            },
    {
        match self.resources.get_last_status() {
            None => None,
            Some(s) => Some(ResourceMetrics {
                memory_mb: s.memory_mb,
                memory_warning: s.memory_warning,
                thread_count: s.thread_count,
                thread_warning: s.thread_warning,
            }),
        }
    }

    /// Clears the routing metrics and the alert count.
    pub fn reset(&mut self)
        ensures
            final(self).metrics.wf(),
            final(self).metrics@ == (MetricsState {
                total: 0,
                successes: 0,
                failures: 0,
                latency_sum: 0,
                min: u64::MAX,
                max: 0,
                samples: Seq::empty(),
                start: old(self).metrics@.start,
            }),
            final(self).resources.alerts_of() == 0,
            final(self).resources.config_of() == old(self).resources.config_of(),
            final(self).resources.last_of() == old(self).resources.last_of(),
    {
        self.metrics.reset();
        self.resources.reset_alert_count();
    }
}

} // verus!
