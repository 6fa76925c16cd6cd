use opendr::clock::Duration;
use opendr::metrics::{
    AuthCacheStats, FsmType, HealthStatus, MetricsCollector, OperationType, ResourceEventType,
};

#[test]
fn test_metrics_collector_new() {
    let metrics = MetricsCollector::new();
    assert!(metrics.uptime_seconds() < 1);

    // All operations should start with zero counts
    for op_type in OperationType::all() {
        let stats = metrics.get_operation_stats(op_type).unwrap();
        assert_eq!(stats.count, 0);
        assert_eq!(stats.success, 0);
        assert_eq!(stats.failures, 0);
        assert_eq!(stats.active, 0);
    }

    // Connections should start at zero
    let conn_stats = metrics.get_connection_stats();
    assert_eq!(conn_stats.total, 0);
    assert_eq!(conn_stats.active, 0);
    assert_eq!(conn_stats.closed, 0);
    assert_eq!(conn_stats.failed, 0);

    let resource_stats = metrics.get_resource_stats();
    assert_eq!(resource_stats.connection_rejections, 0);
    assert_eq!(resource_stats.operation_rejections, 0);
    assert_eq!(resource_stats.memory_rejections, 0);
    assert_eq!(resource_stats.rate_limit_blocks, 0);
    assert_eq!(resource_stats.rate_limit_allows, 0);
    assert_eq!(resource_stats.idle_connection_evictions, 0);
}

#[test]
fn test_operation_metrics_basic() {
    let mut metrics = MetricsCollector::new();

    // Start an operation
    metrics.record_operation_start(OperationType::Bind, "127.0.0.1:1234");

    let stats = metrics.get_operation_stats(OperationType::Bind).unwrap();
    assert_eq!(stats.count, 1);
    assert_eq!(stats.active, 1);

    // Complete the operation
    metrics.record_operation_complete(OperationType::Bind, Duration::from_millis(10), true);

    let stats = metrics.get_operation_stats(OperationType::Bind).unwrap();
    assert_eq!(stats.count, 1);
    assert_eq!(stats.success, 1);
    assert_eq!(stats.failures, 0);
    assert_eq!(stats.active, 0);
    assert!(stats.avg_latency_ns > 0);
}

#[test]
fn test_operation_metrics_failure() {
    let mut metrics = MetricsCollector::new();

    metrics.record_operation_start(OperationType::Search, "127.0.0.1:1234");
    metrics.record_operation_complete(OperationType::Search, Duration::from_millis(5), false);

    let stats = metrics.get_operation_stats(OperationType::Search).unwrap();
    assert_eq!(stats.count, 1);
    assert_eq!(stats.success, 0);
    assert_eq!(stats.failures, 1);
    assert_eq!(stats.active, 0);
}

#[test]
fn test_operation_metrics_latency() {
    let mut metrics = MetricsCollector::new();

    // Record multiple operations with different latencies
    let latencies = vec![
        Duration::from_millis(5),
        Duration::from_millis(10),
        Duration::from_millis(15),
    ];

    for latency in &latencies {
        metrics.record_operation_start(OperationType::Add, "127.0.0.1:1234");
        metrics.record_operation_complete(OperationType::Add, *latency, true);
    }

    let stats = metrics.get_operation_stats(OperationType::Add).unwrap();
    assert_eq!(stats.count, 3);
    assert_eq!(stats.success, 3);

    // Check min/max latencies
    assert_eq!(
        stats.min_latency_ns,
        Duration::from_millis(5).as_nanos() as u64
    );
    assert_eq!(
        stats.max_latency_ns,
        Duration::from_millis(15).as_nanos() as u64
    );

    // Check average
    let expected_avg = Duration::from_millis(10).as_nanos() as u64;
    assert_eq!(stats.avg_latency_ns, expected_avg);
}

#[test]
fn test_connection_metrics() {
    let mut metrics = MetricsCollector::new();

    // Accept connections
    metrics.record_connection_accepted();
    metrics.record_connection_accepted();

    let stats = metrics.get_connection_stats();
    assert_eq!(stats.total, 2);
    assert_eq!(stats.active, 2);

    // Close one connection
    metrics.record_connection_closed();

    let stats = metrics.get_connection_stats();
    assert_eq!(stats.active, 1);
    assert_eq!(stats.closed, 1);

    // Record failed connection
    metrics.record_connection_failed();

    let stats = metrics.get_connection_stats();
    assert_eq!(stats.failed, 1);
}

#[test]
fn test_resource_metrics_and_export() {
    let mut metrics = MetricsCollector::new();

    metrics.record_resource_event(ResourceEventType::ConnectionRejected);
    metrics.record_resource_event(ResourceEventType::OperationRejected);
    metrics.record_resource_event(ResourceEventType::MemoryRejected);
    metrics.record_resource_event(ResourceEventType::RateLimitBlocked);
    metrics.record_resource_event(ResourceEventType::RateLimitAllowed);
    metrics.record_resource_event(ResourceEventType::IdleConnectionEvicted);

    let stats = metrics.get_resource_stats();
    assert_eq!(stats.connection_rejections, 1);
    assert_eq!(stats.operation_rejections, 1);
    assert_eq!(stats.memory_rejections, 1);
    assert_eq!(stats.rate_limit_blocks, 1);
    assert_eq!(stats.rate_limit_allows, 1);
    assert_eq!(stats.idle_connection_evictions, 1);

    let output = metrics.export_prometheus();
    assert!(output.contains("ldap_resource_connection_rejections_total 1"));
    assert!(output.contains("ldap_resource_operation_rejections_total 1"));
    assert!(output.contains("ldap_resource_memory_rejections_total 1"));
    assert!(output.contains("ldap_resource_rate_limit_blocks_total 1"));
    assert!(output.contains("ldap_resource_rate_limit_allows_total 1"));
    assert!(output.contains("ldap_resource_idle_connection_evictions_total 1"));
}

#[test]
fn test_auth_cache_metrics_and_export() {
    let mut metrics = MetricsCollector::new();

    metrics.record_auth_cache_stats(1000, 42, 7, 3, 2);

    let stats = metrics.get_auth_cache_stats();
    assert_eq!(
        stats,
        AuthCacheStats {
            capacity: 1000,
            entries: 42,
            hits: 7,
            misses: 3,
            evictions: 2,
        }
    );

    let output = metrics.export_prometheus();
    assert!(output.contains("ldap_auth_cache_capacity 1000"));
    assert!(output.contains("ldap_auth_cache_entries 42"));
    assert!(output.contains("ldap_auth_cache_hits_total 7"));
    assert!(output.contains("ldap_auth_cache_misses_total 3"));
    assert!(output.contains("ldap_auth_cache_evictions_total 2"));
}

#[test]
fn test_fsm_state_tracking() {
    let mut metrics = MetricsCollector::new();

    metrics.record_fsm_state(FsmType::Connection, "connected");
    metrics.record_fsm_state(FsmType::Connection, "connected");
    metrics.record_fsm_state(FsmType::Connection, "disconnected");
    metrics.record_fsm_state(FsmType::Auth, "authenticating");

    let distribution = metrics.get_fsm_state_distribution();

    assert_eq!(distribution.get("connection:connected"), Some(&2));
    assert_eq!(distribution.get("connection:disconnected"), Some(&1));
    assert_eq!(distribution.get("auth:authenticating"), Some(&1));
}

#[test]
fn test_custom_counters() {
    let mut metrics = MetricsCollector::new();

    metrics.increment_counter("test_counter", 5);
    assert_eq!(metrics.get_counter("test_counter"), Some(5));

    metrics.increment_counter("test_counter", 3);
    assert_eq!(metrics.get_counter("test_counter"), Some(8));

    assert_eq!(metrics.get_counter("nonexistent"), None);
}

#[test]
fn test_custom_gauges() {
    let mut metrics = MetricsCollector::new();

    metrics.set_gauge("test_gauge", 100);
    assert_eq!(metrics.get_gauge("test_gauge"), Some(100));

    metrics.set_gauge("test_gauge", 200);
    assert_eq!(metrics.get_gauge("test_gauge"), Some(200));

    assert_eq!(metrics.get_gauge("nonexistent"), None);
}

#[test]
fn test_prometheus_export() {
    let mut metrics = MetricsCollector::new();

    // Record some metrics
    metrics.record_connection_accepted();
    metrics.record_operation_start(OperationType::Bind, "127.0.0.1:1234");
    metrics.record_operation_complete(OperationType::Bind, Duration::from_millis(10), true);
    metrics.record_fsm_state(FsmType::Auth, "authenticated");

    let output = metrics.export_prometheus();

    // Verify output contains expected metrics
    assert!(output.contains("ldap_server_uptime_seconds"));
    assert!(output.contains("ldap_connections_total 1"));
    assert!(output.contains("ldap_connections_active 1"));
    assert!(output.contains("ldap_operations_total{operation=\"bind\"} 1"));
    assert!(output.contains("ldap_operations_success{operation=\"bind\"} 1"));
    assert!(output.contains("ldap_fsm_states{fsm=\"auth\",state=\"authenticated\"} 1"));
}

#[test]
fn test_uptime() {
    let metrics = MetricsCollector::new();

    let uptime1 = metrics.uptime_seconds();
    let start = std::time::Instant::now();
    while start.elapsed() < std::time::Duration::from_millis(100) {}
    let uptime2 = metrics.uptime_seconds();

    assert!(uptime2 >= uptime1);
}

#[test]
fn test_health_check_healthy() {
    let mut metrics = MetricsCollector::new();

    metrics.record_connection_accepted();
    metrics.record_operation_start(OperationType::Bind, "127.0.0.1:1234");
    metrics.record_operation_complete(OperationType::Bind, Duration::from_millis(10), true);

    let health = metrics.health_check();
    assert!(health.is_healthy());
    assert!(health.uptime_seconds < 10);
}

#[test]
fn test_health_check_degraded() {
    let mut metrics = MetricsCollector::new();

    metrics.record_connection_accepted();
    metrics.record_operation_start(OperationType::Search, "127.0.0.1:1234");
    metrics.record_operation_complete(OperationType::Search, Duration::from_millis(10), false);

    let health = metrics.health_check();
    assert_eq!(health.status, HealthStatus::Degraded);
    assert!(!health.details.is_empty());
}

#[test]
fn test_health_check_json() {
    let mut metrics = MetricsCollector::new();

    metrics.record_connection_accepted();

    let json = metrics.health_check_json();
    assert!(json.contains("\"status\":"));
    assert!(json.contains("\"timestamp\":"));
    assert!(json.contains("\"uptime_seconds\":"));
    assert!(json.contains("\"components\":"));
}

#[test]
fn test_operation_type_as_str() {
    assert_eq!(OperationType::Bind.as_str(), "bind");
    assert_eq!(OperationType::Search.as_str(), "search");
    assert_eq!(OperationType::Modify.as_str(), "modify");
}

#[test]
fn test_operation_type_all() {
    let all = OperationType::all();
    assert_eq!(all.len(), 10);
    assert!(all.contains(&OperationType::Bind));
    assert!(all.contains(&OperationType::Search));
}

#[test]
fn test_fsm_type_as_str() {
    assert_eq!(FsmType::Connection.as_str(), "connection");
    assert_eq!(FsmType::Auth.as_str(), "auth");
    assert_eq!(FsmType::Search.as_str(), "search");
}

#[test]
fn test_health_status() {
    assert!(HealthStatus::Healthy.is_healthy());
    assert!(!HealthStatus::Degraded.is_healthy());
    assert!(!HealthStatus::Unhealthy.is_healthy());

    assert_eq!(HealthStatus::Healthy.as_str(), "healthy");
    assert_eq!(HealthStatus::Degraded.as_str(), "degraded");
    assert_eq!(HealthStatus::Unhealthy.as_str(), "unhealthy");
}

#[test]
fn exported_text_holds_the_exact_counters() {
    let mut metrics = MetricsCollector::new();
    metrics.record_operation_start(OperationType::Bind, "client");
    metrics.record_operation_complete(OperationType::Bind, Duration::from_nanos(40), true);
    metrics.increment_counter("logins", 2);
    metrics.set_gauge("depth", 9);
    let text = metrics.export_prometheus_at(7);
    assert!(text.starts_with("# HELP ldap_server_uptime_seconds"));
    assert!(text.contains("ldap_server_uptime_seconds 7\n"));
    assert!(text.contains("ldap_operations_total{operation=\"bind\"} 1\n"));
    assert!(text.contains("ldap_operations_total{operation=\"add\"} 0\n"));
    assert!(text.contains("logins"));
    assert!(text.contains("depth"));
}

#[test]
fn a_server_that_has_done_an_operation_is_healthy() {
    let mut metrics = MetricsCollector::new();
    metrics.record_operation_start(OperationType::Bind, "127.0.0.1:1234");
    metrics.record_operation_complete(OperationType::Bind, Duration::from_millis(10), true);
    assert!(metrics.health_check().is_healthy());
}

#[test]
fn a_server_without_connections_is_degraded() {
    let metrics = MetricsCollector::new();
    assert_eq!(metrics.health_check().status, HealthStatus::Degraded);
    assert!(!metrics.health_check().is_healthy());
}

#[test]
fn completions_without_starts_wrap_the_active_count() {
    let mut metrics = MetricsCollector::new();
    metrics.record_operation_complete(OperationType::Delete, Duration::from_millis(1), true);
    let stats = metrics.get_operation_stats(OperationType::Delete).unwrap();
    assert_eq!(stats.active, usize::MAX);
    assert_eq!(stats.success, 1);
}

#[test]
fn failures_are_told_as_details() {
    let mut metrics = MetricsCollector::new();
    metrics.record_connection_accepted();
    metrics.record_operation_start(OperationType::Search, "client");
    metrics.record_operation_complete(OperationType::Search, Duration::from_millis(1), false);
    let json = metrics.health_check_json();
    assert!(json.starts_with("{\"status\":\"degraded\""));
    assert!(json.contains("\"operations\":\"degraded\""));
    assert!(json.contains("\"connections\":\"healthy\""));
}

#[test]
fn each_metric_of_an_operation_is_told_once() {
    let mut metrics = MetricsCollector::new();
    metrics.record_operation_start(OperationType::Modify, "client");
    metrics.record_operation_complete(OperationType::Modify, Duration::from_nanos(40), true);
    metrics.increment_counter("ldap_operations_total", 2);
    let text = metrics.export_prometheus_at(7);
    let told = |label: &str| -> Vec<&str> {
        text.split('\n').filter(|line| line.starts_with(label)).collect()
    };
    for (name, value) in [
        ("total", 1),
        ("success", 1),
        ("failures", 0),
        ("active", 0),
        ("latency_avg_ns", 40),
        ("latency_min_ns", 40),
        ("latency_max_ns", 40),
    ] {
        let label = format!("ldap_operations_{}{{operation=\"modify\"}} ", name);
        assert_eq!(told(&label), vec![format!("{}{}", label, value)]);
    }
    assert_eq!(
        told("ldap_operations_total{operation=\"modifydn\"} "),
        vec!["ldap_operations_total{operation=\"modifydn\"} 0"]
    );
    assert!(told("ldap_operations_latency_min_ns{operation=\"modifydn\"} ").is_empty());
}

#[test]
fn the_first_latency_is_the_least() {
    let mut metrics = MetricsCollector::new();
    for nanos in [30, 50, 20] {
        metrics.record_operation_start(OperationType::Add, "client");
        metrics.record_operation_complete(OperationType::Add, Duration::from_nanos(nanos), true);
        let stats = metrics.get_operation_stats(OperationType::Add).unwrap();
        assert_eq!(stats.min_latency_ns, if nanos == 20 { 20 } else { 30 });
    }
    let stats = metrics.get_operation_stats(OperationType::Add).unwrap();
    assert_eq!((stats.max_latency_ns, stats.active, stats.success), (50, 0, 3));
    let other = metrics.get_operation_stats(OperationType::Bind).unwrap();
    assert_eq!((other.count, other.min_latency_ns), (0, 0));
}
