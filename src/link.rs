//! What the command-line link executor is handed: the arguments of the ssh
//! client for one tunnel, and the name under which the gateway is shown.
use vstd::prelude::*;
use vstd::string::*;

use crate::config::SshConfig;
use crate::text::{decimal, push_decimal};
use crate::tunnel::{Tunnel, TunnelDirection};

verus! {

/// The forwarding option and its argument for `t`: a pull listens
/// locally and forwards to the remote service (`-L port:host:port`); a push
/// listens on the remote side and forwards to the local service (`-R ...`).
pub open spec fn forward_args(t: Tunnel) -> Seq<Seq<char>> {
    match t.direction {
        TunnelDirection::Receive => seq![
            "-L"@,
            decimal(t.local_port as nat) + ":"@ + t.remote_host@ + ":"@ + decimal(
                t.remote_port as nat,
            ),
        ],
        TunnelDirection::Send => seq![
            "-R"@,
            decimal(t.remote_port as nat) + ":"@ + t.local_host@ + ":"@ + decimal(
                t.local_port as nat,
            ),
        ],
    }
}

/// The arguments of the ssh client that carries `t` through `gate`.
pub open spec fn ssh_cli_args_of(t: Tunnel, gate: SshConfig) -> Seq<Seq<char>> {
    seq![
        "-N"@,
        "-o"@,
        "StrictHostKeyChecking=no"@,
        "-o"@,
        "UserKnownHostsFile=/dev/null"@,
        "-o"@,
        "LogLevel=ERROR"@,
        "-o"@,
        "ServerAliveInterval=30"@,
        "-o"@,
        "ServerAliveCountMax=3"@,
        "-p"@,
        decimal(gate.port as nat),
        "-i"@,
        gate.key_path@,
    ] + forward_args(t) + seq![gate.user@ + "@"@ + gate.host@]
}

fn text(s: &str) -> (r: String)
    ensures
        r@ == s@,
{
    String::from_str(s)
}

fn number(n: u16) -> (r: String)
    ensures
        r@ == decimal(n as nat),
{
    let mut s = String::new();
    push_decimal(&mut s, n as u64);
    assert(s@ =~= decimal(n as nat));
    s
}

/// The arguments of the ssh client that carries `tunnel` through `gate`:
/// no remote command, no host-key prompt, keepalives, the gateway's port and
/// key, the forwarding of the tunnel, and `user@host`.
pub fn ssh_cli_args(tunnel: &Tunnel, gate: &SshConfig) -> (r: Vec<String>)
    ensures
        r@.map_values(|s: String| s@) == ssh_cli_args_of(*tunnel, *gate),
{
    let mut args: Vec<String> = Vec::new();
    args.push(text("-N"));
    args.push(text("-o"));
    args.push(text("StrictHostKeyChecking=no"));
    args.push(text("-o"));
    args.push(text("UserKnownHostsFile=/dev/null"));
    args.push(text("-o"));
    args.push(text("LogLevel=ERROR"));
    args.push(text("-o"));
    args.push(text("ServerAliveInterval=30"));
    args.push(text("-o"));
    args.push(text("ServerAliveCountMax=3"));
    args.push(text("-p"));
    args.push(number(gate.port));
    args.push(text("-i"));
    args.push(gate.key_path.clone());
    match tunnel.direction {
        TunnelDirection::Receive => {
            args.push(text("-L"));
            let mut forward = number(tunnel.local_port);
            forward.append(":");
            forward.append(tunnel.remote_host.as_str());
            forward.append(":");
            push_decimal(&mut forward, tunnel.remote_port as u64);
            args.push(forward);
        },
        TunnelDirection::Send => {
            args.push(text("-R"));
            let mut forward = number(tunnel.remote_port);
            forward.append(":");
            forward.append(tunnel.local_host.as_str());
            forward.append(":");
            push_decimal(&mut forward, tunnel.local_port as u64);
            args.push(forward);
        },
    }
    let mut target = gate.user.clone();
    target.append("@");
    target.append(gate.host.as_str());
    args.push(target);
    assert(args@.map_values(|s: String| s@) =~= ssh_cli_args_of(*tunnel, *gate));
    args
}

/// Whether an IPv4 address with these first two octets lies in a private
/// network of the server side: 10.0.0.0/8, 172.16.0.0/12 or 192.168.0.0/16.
pub open spec fn internal_v4(a: u8, b: u8) -> bool {
    (a == 192 && b == 168) || a == 10 || (a == 172 && 16 <= b <= 31)
}

/// Whether `octets`, the IPv4 address that a host string reads as (none where
/// it is not one), is a private address of the server side.
pub fn is_server_internal_ip(octets: Option<[u8; 4]>) -> (r: bool)
    ensures
        r == is_internal(octets),
{
    match octets {
        Some(o) => (o[0] == 192 && o[1] == 168) || o[0] == 10 || (o[0] == 172 && o[1] >= 16
            && o[1] <= 31),
        None => false,
    }
}

/// The name under which `host` is shown: where it is a private server
/// address (`octets` being what it reads as), the configured `server_name`,
/// or `server_internal` where there is none; otherwise `host` itself.
pub fn get_server_display_name(
    host: &str,
    octets: Option<[u8; 4]>,
    server_name: &Option<String>,
) -> (r: String)
    ensures
        r@ == if is_internal(octets) {
            match server_name {
                Some(n) => n@,
                None => "server_internal"@,
            }
        } else {
            host@
        },
{
    if is_server_internal_ip(octets) {
        match server_name {
            Some(n) => n.clone(),
            None => text("server_internal"),
        }
    } else {
        text(host)
    }
}

/// Whether `octets` is a private server address.
pub open spec fn is_internal(octets: Option<[u8; 4]>) -> bool {
    match octets {
        Some(o) => internal_v4(o@[0], o@[1]),
        None => false,
    }
}

} // verus!
