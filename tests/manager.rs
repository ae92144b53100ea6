use m_tunnel::{
    Config, ConfigError, ConnectionLimits, Directive, Phase, SshConfig, SupervisorEvent,
    TunnelConfig, TunnelManager, TunnelStatus,
};

fn gate(host: &str) -> SshConfig {
    SshConfig {
        host: host.to_string(),
        user: "testuser".to_string(),
        port: 22,
        key_path: "/tmp/test_key".to_string(),
        timeout: 10,
        keepalive_interval: 30,
        server_name: None,
    }
}

fn tunnel_config(name: &str, direction: &str, local_port: u16, enabled: bool) -> TunnelConfig {
    TunnelConfig {
        name: name.to_string(),
        direction: direction.to_string(),
        local_host: "127.0.0.1".to_string(),
        local_port,
        remote_host: "example.com".to_string(),
        remote_port: 80,
        enabled,
    }
}

fn create_test_config(tunnel_port: u16) -> Config {
    Config {
        gate: gate("127.0.0.1"),
        tunnels: vec![tunnel_config("test-tunnel", "receive", tunnel_port, true)],
        limits: ConnectionLimits::default(),
    }
}

fn generous_limits(max_backoff_secs: u64) -> ConnectionLimits {
    ConnectionLimits { max_attempts: 1000, retry_window_secs: 1, max_backoff_secs }
}

fn failure() -> SupervisorEvent {
    SupervisorEvent::LinkFailed("exit status: 255".to_string())
}

#[test]
fn test_tunnel_manager_creation() {
    let config = create_test_config(8080);
    let result = TunnelManager::new(config);
    assert!(result.is_ok());
}

#[test]
fn test_tunnel_manager_with_disabled_tunnel() {
    let mut config = create_test_config(8080);
    config.tunnels[0].enabled = false;
    let tunnel_manager = TunnelManager::new(config).unwrap();
    assert!(!tunnel_manager.is_shutdown_requested());
}

#[test]
fn test_graceful_shutdown() {
    let config = create_test_config(8080);
    let mut tunnel_manager = TunnelManager::new(config).unwrap();
    tunnel_manager.shutdown();
    assert!(tunnel_manager.is_shutdown_requested());
    // signalling again changes nothing
    tunnel_manager.shutdown();
    assert!(tunnel_manager.is_shutdown_requested());
}

#[test]
fn test_config_validation() {
    let mut config = create_test_config(8080);
    config.gate.host = "invalid;host".to_string();
    let result = TunnelManager::new(config);
    assert!(matches!(result, Err(ConfigError::InvalidHost)));
}

#[test]
fn test_concurrent_tunnels() {
    let mut config = create_test_config(8080);
    let mut tunnel2 = tunnel_config("test-tunnel", "receive", 8081, true);
    tunnel2.name = "test-tunnel-2".to_string();
    config.tunnels.push(tunnel2);
    let mut tunnel_manager = TunnelManager::new(config).unwrap();
    assert_eq!(tunnel_manager.config().tunnels.len(), 2);
    assert_eq!(tunnel_manager.supervisor_count(), 2);
    tunnel_manager.shutdown();
    assert!(tunnel_manager.is_shutdown_requested());
}

#[test]
fn invalid_user_is_refused() {
    let mut config = create_test_config(8080);
    config.gate.user = "`whoami`".to_string();
    assert!(matches!(TunnelManager::new(config), Err(ConfigError::InvalidUser)));
}

#[test]
fn invalid_direction_is_refused_for_enabled_tunnels_only() {
    let mut config = create_test_config(8080);
    config.tunnels.push(tunnel_config("idle", "sideways", 1, false));
    assert!(TunnelManager::new(config.clone()).is_ok());
    config.tunnels.push(tunnel_config("bad", "sideways", 2, true));
    match TunnelManager::new(config) {
        Err(ConfigError::InvalidDirection(name)) => assert_eq!(name, "bad"),
        _ => panic!("expected an invalid direction"),
    }
}

#[test]
fn duplicate_enabled_names_are_refused() {
    let mut config = create_test_config(8080);
    config.tunnels.push(tunnel_config("test-tunnel", "send", 9000, false));
    assert!(TunnelManager::new(config.clone()).is_ok());
    config.tunnels.push(tunnel_config("test-tunnel", "send", 9001, true));
    match TunnelManager::new(config) {
        Err(ConfigError::DuplicateTunnel(name)) => assert_eq!(name, "test-tunnel"),
        _ => panic!("expected a duplicate tunnel"),
    }
}

#[test]
fn backoff_reaches_maximum_and_stays_there() {
    let mut config = create_test_config(8080);
    config.limits = generous_limits(60);
    let mut m = TunnelManager::new(config).unwrap();
    let mut now: u64 = 0;
    assert_eq!(m.advance(0, SupervisorEvent::Start, now), Directive::RunLink);
    let mut sleeps = Vec::new();
    let mut delays = Vec::new();
    for _ in 0..8 {
        match m.advance(0, failure(), now) {
            Directive::Sleep(s) => sleeps.push(s),
            other => panic!("unexpected {:?}", other),
        }
        delays.push(m.supervisor(0).delay_secs());
        now += 5_000;
        assert_eq!(m.advance(0, SupervisorEvent::Woke, now), Directive::RunLink);
    }
    assert_eq!(sleeps, vec![1, 2, 4, 8, 16, 32, 60, 60]);
    // after k failures the delay is min(2^k, 60): the maximum after six failures
    assert_eq!(delays, vec![2, 4, 8, 16, 32, 60, 60, 60]);
    assert_eq!(m.supervisor(0).attempts(), 9);
}

#[test]
fn graceful_close_resets_backoff() {
    let mut config = create_test_config(8080);
    config.limits = generous_limits(60);
    let mut m = TunnelManager::new(config).unwrap();
    let mut now: u64 = 0;
    assert_eq!(m.advance(0, SupervisorEvent::Start, now), Directive::RunLink);
    assert_eq!(m.advance(0, failure(), now), Directive::Sleep(1));
    now += 5_000;
    assert_eq!(m.advance(0, SupervisorEvent::Woke, now), Directive::RunLink);
    assert_eq!(m.advance(0, failure(), now), Directive::Sleep(2));
    assert_eq!(m.supervisor(0).delay_secs(), 4);
    now += 5_000;
    assert_eq!(m.advance(0, SupervisorEvent::Woke, now), Directive::RunLink);
    assert_eq!(m.advance(0, SupervisorEvent::LinkClosed, now), Directive::Sleep(1));
    assert_eq!(m.supervisor(0).delay_secs(), 1);
    assert_eq!(m.supervisor(0).last_error(), None);
    now += 5_000;
    assert_eq!(m.advance(0, SupervisorEvent::Woke, now), Directive::RunLink);
    assert_eq!(m.advance(0, failure(), now), Directive::Sleep(1));
    now += 5_000;
    assert_eq!(m.advance(0, SupervisorEvent::Woke, now), Directive::RunLink);
    assert_eq!(m.advance(0, failure(), now), Directive::Sleep(2));
    assert_eq!(m.supervisor(0).delay_secs(), 4);
}

#[test]
fn shutdown_during_backoff_exits_on_wake() {
    let mut m = TunnelManager::new(create_test_config(8080)).unwrap();
    assert_eq!(m.advance(0, SupervisorEvent::Start, 0), Directive::RunLink);
    assert_eq!(m.advance(0, failure(), 10), Directive::Sleep(1));
    assert_eq!(m.supervisor(0).phase(), Phase::BackingOff);
    m.shutdown();
    assert_eq!(m.advance(0, SupervisorEvent::Woke, 20), Directive::Exit);
    assert_eq!(m.supervisor(0).phase(), Phase::Terminated);
    let stats = m.metrics().get("test-tunnel").unwrap();
    assert_eq!(stats.status, TunnelStatus::Disconnected);
    // a terminated supervisor only exits
    assert_eq!(m.advance(0, SupervisorEvent::Start, 30), Directive::Exit);
}

#[test]
fn shutdown_ends_a_running_link() {
    let mut m = TunnelManager::new(create_test_config(8080)).unwrap();
    assert_eq!(m.advance(0, SupervisorEvent::Start, 0), Directive::RunLink);
    m.shutdown();
    assert_eq!(m.advance(0, SupervisorEvent::LinkClosed, 5), Directive::Exit);
    assert_eq!(m.supervisor(0).phase(), Phase::Terminated);
}

#[test]
fn no_second_link_while_one_runs() {
    let mut m = TunnelManager::new(create_test_config(8080)).unwrap();
    assert_eq!(m.advance(0, SupervisorEvent::Start, 0), Directive::RunLink);
    assert_eq!(m.advance(0, SupervisorEvent::Start, 1), Directive::Ignore);
    assert_eq!(m.advance(0, SupervisorEvent::Woke, 2), Directive::Ignore);
    assert_eq!(m.supervisor(0).phase(), Phase::Linking);
    assert_eq!(m.supervisor(0).attempts(), 1);
    assert_eq!(m.advance(0, SupervisorEvent::LinkClosed, 3), Directive::Sleep(1));
    assert_eq!(m.advance(0, SupervisorEvent::LinkClosed, 4), Directive::Ignore);
}

#[test]
fn rate_limit_refusal_cools_down() {
    let mut config = create_test_config(8080);
    config.limits = ConnectionLimits { max_attempts: 1, retry_window_secs: 300, max_backoff_secs: 60 };
    let mut m = TunnelManager::new(config).unwrap();
    assert_eq!(m.advance(0, SupervisorEvent::Start, 0), Directive::RunLink);
    assert_eq!(m.advance(0, failure(), 1_000), Directive::Sleep(1));
    assert_eq!(m.advance(0, SupervisorEvent::Woke, 2_000), Directive::Sleep(60));
    assert_eq!(m.supervisor(0).phase(), Phase::CoolingDown);
    assert_eq!(m.supervisor(0).attempts(), 1);
    let stats = m.metrics().get("test-tunnel").unwrap();
    assert_eq!(stats.status, TunnelStatus::Error);
    // once the window has closed the next attempt goes ahead
    assert_eq!(m.advance(0, SupervisorEvent::Woke, 300_000), Directive::RunLink);
    assert_eq!(m.supervisor(0).attempts(), 2);
}

#[test]
fn tunnels_share_the_gateway_budget() {
    let mut config = create_test_config(8080);
    config.tunnels.push(tunnel_config("second", "send", 9000, true));
    config.limits = ConnectionLimits { max_attempts: 1, retry_window_secs: 300, max_backoff_secs: 60 };
    let mut m = TunnelManager::new(config).unwrap();
    assert_eq!(m.advance(0, SupervisorEvent::Start, 0), Directive::RunLink);
    assert_eq!(m.advance(1, SupervisorEvent::Start, 10), Directive::Sleep(60));
}

#[test]
fn feed_records_link_outcomes() {
    let mut m = TunnelManager::new(create_test_config(8080)).unwrap();
    assert_eq!(m.advance(0, SupervisorEvent::Start, 0), Directive::RunLink);
    let s = m.metrics().get("test-tunnel").unwrap();
    assert_eq!(s.status, TunnelStatus::Connecting);
    assert_eq!(s.reconnect_count, 0);
    m.advance(0, failure(), 1);
    let s = m.metrics().get("test-tunnel").unwrap();
    assert_eq!(s.status, TunnelStatus::Connecting);
    assert_eq!(s.reconnect_count, 1);
    assert_eq!(s.last_error.as_deref(), Some("exit status: 255"));
    assert_eq!(m.supervisor(0).last_error().as_deref(), Some("exit status: 255"));
    m.advance(0, SupervisorEvent::Woke, 2);
    m.advance(0, SupervisorEvent::LinkClosed, 3);
    let s = m.metrics().get("test-tunnel").unwrap();
    assert_eq!(s.reconnect_count, 2);
    assert_eq!(s.last_error, None);
}

#[test]
fn link_established_shows_connected() {
    let mut m = TunnelManager::new(create_test_config(8080)).unwrap();
    assert_eq!(m.advance(0, SupervisorEvent::Start, 0), Directive::RunLink);
    m.link_established(0);
    assert_eq!(m.metrics().get("test-tunnel").unwrap().status, TunnelStatus::Connected);
}

#[test]
fn cancel_all_leaves_nothing_live() {
    let mut config = create_test_config(8080);
    config.tunnels.push(tunnel_config("second", "send", 9000, true));
    let mut m = TunnelManager::new(config).unwrap();
    assert_eq!(m.advance(0, SupervisorEvent::Start, 0), Directive::RunLink);
    m.link_established(0);
    assert_eq!(m.advance(1, SupervisorEvent::Start, 1), Directive::RunLink);
    m.shutdown();
    m.cancel_all();
    for i in 0..m.supervisor_count() {
        assert_eq!(m.supervisor(i).phase(), Phase::Terminated);
    }
    for s in m.metrics().get_summary() {
        assert_ne!(s.status, TunnelStatus::Connecting);
        assert_ne!(s.status, TunnelStatus::Connected);
    }
}

#[test]
fn disabled_tunnels_stay_out_of_feed_and_limiter() {
    let mut config = create_test_config(8080);
    config.tunnels.insert(0, tunnel_config("off", "send", 7000, false));
    config.limits = ConnectionLimits { max_attempts: 1, retry_window_secs: 300, max_backoff_secs: 60 };
    let mut m = TunnelManager::new(config).unwrap();
    assert_eq!(m.supervisor_count(), 1);
    assert_eq!(m.tunnel(0).id, "test-tunnel");
    // the single attempt of the window is there for the enabled tunnel
    assert_eq!(m.advance(0, SupervisorEvent::Start, 0), Directive::RunLink);
    assert!(m.metrics().get("off").is_none());
    assert_eq!(m.metrics().get_summary().len(), 1);
}

#[test]
fn status_report_text() {
    let mut config = create_test_config(8080);
    config.gate = gate("gate.example.com");
    config.tunnels.push(tunnel_config("second", "send", 9000, true));
    config.tunnels.push(tunnel_config("off", "send", 7000, false));
    let mut m = TunnelManager::new(config).unwrap();
    m.advance(0, SupervisorEvent::Start, 0);
    m.link_established(0);
    m.advance(1, SupervisorEvent::Start, 1);
    m.advance(1, failure(), 2);
    let expected = "Tunnel Status Report (1/3 active):\n  ✓ test-tunnel → gate.example.com:80 (Active)\n  ⚠ second → gate.example.com:80 (Reconnecting, 1 attempts)\n  ✗ off → gate.example.com:80 (Inactive)\n";
    assert_eq!(m.status_report(), expected);
}
