use chips_core::utils::metrics::{
    MetricsCollector, MonitoringSystem, ResourceMonitor, ResourceMonitorConfig,
    DEFAULT_MEMORY_THRESHOLD_MB, DEFAULT_THREAD_THRESHOLD, MAX_LATENCY_SAMPLES,
};

#[test]
fn test_metrics_collector_new() {
    let collector = MetricsCollector::new(0);
    assert_eq!(collector.get_total_requests(), 0);
    assert_eq!(collector.get_success_count(), 0);
    assert_eq!(collector.get_failure_count(), 0);
}

#[test]
fn test_record_route_success() {
    let mut collector = MetricsCollector::new(0);

    collector.record_route(true, 1000);
    collector.record_route(true, 2000);

    assert_eq!(collector.get_total_requests(), 2);
    assert_eq!(collector.get_success_count(), 2);
    assert_eq!(collector.get_failure_count(), 0);
}

#[test]
fn test_record_route_failure() {
    let mut collector = MetricsCollector::new(0);

    collector.record_route(false, 1000);
    collector.record_route(true, 2000);

    assert_eq!(collector.get_total_requests(), 2);
    assert_eq!(collector.get_success_count(), 1);
    assert_eq!(collector.get_failure_count(), 1);
}

#[test]
fn test_average_latency() {
    let mut collector = MetricsCollector::new(0);

    collector.record_route(true, 1000);
    collector.record_route(true, 2000);
    collector.record_route(true, 3000);

    assert_eq!(collector.get_average_latency(), 2000);
}

#[test]
fn test_min_max_latency() {
    let mut collector = MetricsCollector::new(0);

    collector.record_route(true, 1000);
    collector.record_route(true, 5000);
    collector.record_route(true, 3000);

    assert_eq!(collector.get_min_latency(), 1000);
    assert_eq!(collector.get_max_latency(), 5000);
}

#[test]
fn test_percentile_calculation() {
    let mut collector = MetricsCollector::new(0);

    for i in 1..=100 {
        collector.record_route(true, i * 100);
    }

    let p50 = collector.get_p50_latency();
    let p95 = collector.get_p95_latency();
    let p99 = collector.get_p99_latency();

    assert!(p50 >= 4900 && p50 <= 5100, "P50={} 应该接近 5000", p50);
    assert!(p95 >= 9400 && p95 <= 9600, "P95={} 应该接近 9500", p95);
    assert!(p99 >= 9800 && p99 <= 10000, "P99={} 应该接近 9900", p99);
}

#[test]
fn nearest_rank_values() {
    let mut collector = MetricsCollector::new(0);
    for i in (1..=100).rev() {
        collector.record_route(true, i * 100);
    }
    assert_eq!(collector.get_p50_latency(), 5000);
    assert_eq!(collector.get_p95_latency(), 9500);
    assert_eq!(collector.get_p99_latency(), 9900);
    assert_eq!(collector.value_at_rank(0), 100);
    assert_eq!(collector.value_at_rank(1000), 10000);
}

#[test]
fn test_percentile_empty() {
    let mut collector = MetricsCollector::new(0);

    assert_eq!(collector.get_p50_latency(), 0);
    assert_eq!(collector.get_p95_latency(), 0);
    assert_eq!(collector.get_p99_latency(), 0);
}

#[test]
fn test_percentile_single_sample() {
    let mut collector = MetricsCollector::new(0);
    collector.record_route(true, 1000);

    assert_eq!(collector.get_p50_latency(), 1000);
    assert_eq!(collector.get_p95_latency(), 1000);
    assert_eq!(collector.get_p99_latency(), 1000);
}

#[test]
fn test_reset() {
    let mut collector = MetricsCollector::new(5);

    collector.record_route(true, 1000);
    collector.record_route(false, 2000);

    assert_eq!(collector.get_total_requests(), 2);

    collector.reset();

    assert_eq!(collector.get_total_requests(), 0);
    assert_eq!(collector.get_success_count(), 0);
    assert_eq!(collector.get_failure_count(), 0);
    assert_eq!(collector.get_p50_latency(), 0);
    assert_eq!(collector.get_min_latency(), 0);
    assert_eq!(collector.get_max_latency(), 0);
    assert_eq!(collector.start_time(), 5);
}

#[test]
fn test_clone() {
    let mut collector = MetricsCollector::new(0);
    collector.record_route(true, 1000);
    collector.record_route(true, 2000);

    let cloned = collector.clone();

    assert_eq!(cloned.get_total_requests(), 2);
    assert_eq!(cloned.get_average_latency(), 1500);
}

#[test]
fn latency_summary() {
    let mut collector = MetricsCollector::new(0);
    for v in [300u64, 100, 200] {
        collector.record_route(true, v);
    }
    let m = collector.latency_metrics();
    assert_eq!(m.avg_latency_us, 200);
    assert_eq!(m.min_latency_us, 100);
    assert_eq!(m.max_latency_us, 300);
    assert_eq!(m.p50_latency_us, 200);
    assert_eq!(m.p95_latency_us, 300);
    assert_eq!(m.p99_latency_us, 300);
}

#[test]
fn test_resource_monitor_new() {
    let monitor = ResourceMonitor::new();
    let config = monitor.get_config();

    assert_eq!(config.memory_threshold_mb, DEFAULT_MEMORY_THRESHOLD_MB);
    assert_eq!(config.thread_threshold, DEFAULT_THREAD_THRESHOLD);
    assert!(config.alerts_enabled);
}

#[test]
fn test_resource_monitor_with_config() {
    let config = ResourceMonitorConfig {
        memory_threshold_mb: 256,
        thread_threshold: 50,
        alerts_enabled: false,
    };

    let monitor = ResourceMonitor::with_config(config.clone());
    let retrieved = monitor.get_config();

    assert_eq!(retrieved.memory_threshold_mb, 256);
    assert_eq!(retrieved.thread_threshold, 50);
    assert!(!retrieved.alerts_enabled);
}

#[test]
fn test_update_config() {
    let mut monitor = ResourceMonitor::new();

    monitor.set_memory_threshold(128);
    monitor.set_thread_threshold(25);
    monitor.set_alerts_enabled(false);

    let config = monitor.get_config();
    assert_eq!(config.memory_threshold_mb, 128);
    assert_eq!(config.thread_threshold, 25);
    assert!(!config.alerts_enabled);

    monitor.update_config(ResourceMonitorConfig::default());
    assert_eq!(monitor.get_config(), ResourceMonitorConfig::default());
}

#[test]
fn test_check_resources() {
    let mut monitor = ResourceMonitor::new();
    let status = monitor.check_resources_with(10, 4, 1234);

    assert_eq!(status.memory_mb, 10);
    assert_eq!(status.thread_count, 4);
    assert!(!status.memory_warning);
    assert!(!status.thread_warning);
    assert_eq!(status.checked_at, 1234);
}

#[test]
fn test_get_last_status() {
    let mut monitor = ResourceMonitor::new();

    assert!(monitor.get_last_status().is_none());

    let status = monitor.check_resources_with(600, 4, 1);
    assert_eq!(monitor.get_last_status(), Some(status));
    assert!(status.memory_warning);
}

#[test]
fn test_alert_count() {
    let config = ResourceMonitorConfig {
        memory_threshold_mb: 0,
        thread_threshold: 0,
        alerts_enabled: true,
    };

    let mut monitor = ResourceMonitor::with_config(config);

    assert_eq!(monitor.get_alert_count(), 0);

    monitor.check_resources_with(10, 4, 0);
    assert!(monitor.get_alert_count() > 0);
    assert_eq!(monitor.get_alert_count(), 2);

    monitor.reset_alert_count();
    assert_eq!(monitor.get_alert_count(), 0);
}

#[test]
fn test_alerts_disabled() {
    let config = ResourceMonitorConfig {
        memory_threshold_mb: 0,
        thread_threshold: 0,
        alerts_enabled: false,
    };

    let mut monitor = ResourceMonitor::with_config(config);
    monitor.check_resources_with(10, 4, 0);

    assert_eq!(monitor.get_alert_count(), 0);
}

#[test]
fn thresholds_are_strict() {
    let mut monitor = ResourceMonitor::new();
    let s = monitor.check_resources_with(512, 100, 0);
    assert!(!s.memory_warning);
    assert!(!s.thread_warning);
    let s = monitor.check_resources_with(513, 101, 0);
    assert!(s.memory_warning && s.thread_warning);
    assert_eq!(monitor.get_alert_count(), 2);
}

#[test]
fn test_monitoring_system_new() {
    let system = MonitoringSystem::new(0);
    assert_eq!(system.metrics.get_total_requests(), 0);
}

#[test]
fn test_monitoring_system_record_route() {
    let mut system = MonitoringSystem::new(0);

    system.record_route(true, 1000);
    system.record_route(false, 2000);

    assert_eq!(system.metrics.get_total_requests(), 2);
}

#[test]
fn monitoring_system_resource_figures() {
    let mut system = MonitoringSystem::with_config(ResourceMonitorConfig::default(), 0);
    assert!(system.resource_metrics().is_none());
    system.resources.check_resources_with(1000, 3, 9);
    let r = system.resource_metrics().unwrap();
    assert_eq!(r.memory_mb, 1000);
    assert!(r.memory_warning);
    assert_eq!(r.thread_count, 3);
    assert!(!r.thread_warning);
}

#[test]
fn test_monitoring_system_reset() {
    let mut system = MonitoringSystem::new(0);

    system.record_route(true, 1000);

    system.reset();

    assert_eq!(system.metrics.get_total_requests(), 0);
}

#[test]
fn test_large_latency_values() {
    let mut collector = MetricsCollector::new(0);

    collector.record_route(true, u64::MAX / 2);
    collector.record_route(true, 1000);

    assert_eq!(collector.get_total_requests(), 2);
    assert_eq!(collector.get_max_latency(), u64::MAX / 2);
}

#[test]
fn test_sample_limit() {
    let mut collector = MetricsCollector::new(0);

    for i in 0..(MAX_LATENCY_SAMPLES + 100) {
        collector.record_route(true, (i as u64) * 100);
    }

    assert!(collector.sample_count() <= MAX_LATENCY_SAMPLES);
    assert_eq!(collector.sample_count(), 5100);
}
