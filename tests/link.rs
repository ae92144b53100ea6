use m_tunnel::link::{get_server_display_name, is_server_internal_ip, ssh_cli_args};
use m_tunnel::{SshConfig, Tunnel, TunnelDirection};

fn gate() -> SshConfig {
    SshConfig {
        host: "gate.example.com".to_string(),
        user: "deploy".to_string(),
        port: 2222,
        key_path: "./m-tunnel.key".to_string(),
        timeout: 30,
        keepalive_interval: 60,
        server_name: None,
    }
}

fn tunnel(direction: TunnelDirection) -> Tunnel {
    Tunnel {
        id: "web".to_string(),
        direction,
        local_host: "127.0.0.1".to_string(),
        local_port: 8080,
        remote_host: "10.0.0.5".to_string(),
        remote_port: 80,
        enabled: true,
    }
}

const COMMON: [&str; 15] = [
    "-N",
    "-o",
    "StrictHostKeyChecking=no",
    "-o",
    "UserKnownHostsFile=/dev/null",
    "-o",
    "LogLevel=ERROR",
    "-o",
    "ServerAliveInterval=30",
    "-o",
    "ServerAliveCountMax=3",
    "-p",
    "2222",
    "-i",
    "./m-tunnel.key",
];

#[test]
fn ssh_args_for_pull() {
    let args = ssh_cli_args(&tunnel(TunnelDirection::Receive), &gate());
    let mut expected: Vec<String> = COMMON.iter().map(|s| s.to_string()).collect();
    expected.push("-L".to_string());
    expected.push("8080:10.0.0.5:80".to_string());
    expected.push("deploy@gate.example.com".to_string());
    assert_eq!(args, expected);
}

#[test]
fn ssh_args_for_push() {
    let args = ssh_cli_args(&tunnel(TunnelDirection::Send), &gate());
    let mut expected: Vec<String> = COMMON.iter().map(|s| s.to_string()).collect();
    expected.push("-R".to_string());
    expected.push("80:127.0.0.1:8080".to_string());
    expected.push("deploy@gate.example.com".to_string());
    assert_eq!(args, expected);
}

#[test]
fn internal_ranges() {
    assert!(is_server_internal_ip(Some([192, 168, 1, 1])));
    assert!(is_server_internal_ip(Some([10, 0, 0, 1])));
    assert!(is_server_internal_ip(Some([172, 16, 0, 1])));
    assert!(is_server_internal_ip(Some([172, 31, 255, 255])));
    assert!(!is_server_internal_ip(Some([172, 32, 0, 1])));
    assert!(!is_server_internal_ip(Some([172, 15, 0, 1])));
    assert!(!is_server_internal_ip(Some([8, 8, 8, 8])));
    assert!(!is_server_internal_ip(Some([192, 169, 0, 1])));
    assert!(!is_server_internal_ip(None));
}

#[test]
fn display_names() {
    assert_eq!(
        get_server_display_name("192.168.0.2", Some([192, 168, 0, 2]), &Some("office".to_string())),
        "office"
    );
    assert_eq!(
        get_server_display_name("10.1.2.3", Some([10, 1, 2, 3]), &None),
        "server_internal"
    );
    assert_eq!(
        get_server_display_name("gate.example.com", None, &Some("office".to_string())),
        "gate.example.com"
    );
}
