use m_tunnel::text::decimal_text;
use m_tunnel::{MetricsCollector, TunnelStats, TunnelStatus};

#[test]
fn test_metrics_integration() {
    let mut metrics = MetricsCollector::new();

    // Test metric updates
    metrics.update_tunnel_status("test-tunnel", TunnelStatus::Connecting);
    metrics.update_tunnel_status("test-tunnel", TunnelStatus::Connected);
    metrics.increment_reconnect("test-tunnel");

    // Should not panic and should track metrics
    let prometheus_output = metrics.export_prometheus();
    assert!(prometheus_output.contains("mtunnel"));
}

#[test]
fn update_on_unknown_id_creates_entry() {
    let mut metrics = MetricsCollector::new();
    metrics.update_tunnel_status("a", TunnelStatus::Error);
    let summary = metrics.get_summary();
    assert_eq!(summary.len(), 1);
    assert_eq!(summary[0].tunnel_id, "a");
    assert_eq!(summary[0].status, TunnelStatus::Error);
    assert_eq!(summary[0].reconnect_count, 0);
    assert_eq!(summary[0].last_error, None);
}

#[test]
fn updates_are_last_write_wins_per_tunnel() {
    let mut metrics = MetricsCollector::new();
    metrics.update_tunnel_status("a", TunnelStatus::Connecting);
    metrics.update_tunnel_status("b", TunnelStatus::Connecting);
    metrics.update_tunnel_status("a", TunnelStatus::Connected);
    metrics.increment_reconnect("b");
    metrics.increment_reconnect("b");
    metrics.record_error("b", Some("boom".to_string()));
    let summary = metrics.get_summary();
    assert_eq!(summary.len(), 2);
    assert_eq!(summary[0].tunnel_id, "a");
    assert_eq!(summary[0].status, TunnelStatus::Connected);
    assert_eq!(summary[1].tunnel_id, "b");
    assert_eq!(summary[1].reconnect_count, 2);
    assert_eq!(summary[1].last_error.as_deref(), Some("boom"));
    let b = metrics.get("b").unwrap();
    assert_eq!(b.status, TunnelStatus::Connecting);
    assert!(metrics.get("c").is_none());
}

#[test]
fn export_prometheus_exact_text() {
    let mut metrics = MetricsCollector::new();
    metrics.update_tunnel_status("web", TunnelStatus::Connected);
    metrics.increment_reconnect("web");
    metrics.increment_reconnect("db");
    metrics.increment_reconnect("db");
    metrics.update_tunnel_status("db", TunnelStatus::Error);
    let text = metrics.export_prometheus_at(125);
    let expected = "# HELP mtunnel_uptime_seconds Total uptime in seconds\n\
# TYPE mtunnel_uptime_seconds counter\n\
mtunnel_uptime_seconds 125\n\
mtunnel_reconnects_total{tunnel=\"web\"} 1\n\
mtunnel_status{tunnel=\"web\"} 1\n\
mtunnel_reconnects_total{tunnel=\"db\"} 2\n\
mtunnel_status{tunnel=\"db\"} 4\n";
    assert_eq!(text, expected);
}

#[test]
fn export_prometheus_status_codes() {
    let mut metrics = MetricsCollector::new();
    metrics.update_tunnel_status("c", TunnelStatus::Connecting);
    metrics.update_tunnel_status("d", TunnelStatus::Disconnected);
    let text = metrics.export_prometheus_at(0);
    assert!(text.contains("mtunnel_uptime_seconds 0\n"));
    assert!(text.contains("mtunnel_status{tunnel=\"c\"} 2\n"));
    assert!(text.contains("mtunnel_status{tunnel=\"d\"} 3\n"));
}

#[test]
fn export_prometheus_reads_clock() {
    let metrics = MetricsCollector::new();
    let text = metrics.export_prometheus();
    assert!(text.starts_with("# HELP mtunnel_uptime_seconds"));
    assert!(text.contains("mtunnel_uptime_seconds 0\n"));
}

#[test]
fn settle_all_clears_live_statuses() {
    let mut metrics = MetricsCollector::new();
    metrics.update_tunnel_status("a", TunnelStatus::Connected);
    metrics.update_tunnel_status("b", TunnelStatus::Connecting);
    metrics.update_tunnel_status("c", TunnelStatus::Error);
    metrics.settle_all();
    let s = metrics.get_summary();
    assert_eq!(s[0].status, TunnelStatus::Disconnected);
    assert_eq!(s[1].status, TunnelStatus::Disconnected);
    assert_eq!(s[2].status, TunnelStatus::Error);
}

#[test]
fn tunnel_stats_default() {
    let s = TunnelStats::default();
    assert_eq!(s.tunnel_id, "");
    assert_eq!(s.status, TunnelStatus::Disconnected);
    assert_eq!(s.reconnect_count, 0);
    assert_eq!(s.uptime_secs, 0);
    assert_eq!(s.last_error, None);
    assert_eq!(s.connection_latency_ms, None);
}

#[test]
fn decimal_rendering() {
    assert_eq!(decimal_text(0), "0");
    assert_eq!(decimal_text(7), "7");
    assert_eq!(decimal_text(10), "10");
    assert_eq!(decimal_text(65535), "65535");
    assert_eq!(decimal_text(u64::MAX), "18446744073709551615");
}
