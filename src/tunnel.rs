//! Tunnels as the engine sees them, built from validated configuration.
use vstd::prelude::*;

use crate::config::TunnelConfig;

verus! {

/// Which side a tunnel exposes.
#[derive(Clone, Copy, Debug, PartialEq, Eq, Structural)]
pub enum TunnelDirection {
    /// Push: a local service is exposed on the remote side.
    Send,
    /// Pull: a remote service is exposed locally.
    Receive,
}

/// The direction that a configuration word names, if any.
pub open spec fn direction_of(s: Seq<char>) -> Option<TunnelDirection> {
    if s == "send"@ {
        Some(TunnelDirection::Send)
    } else if s == "receive"@ {
        Some(TunnelDirection::Receive)
    } else {
        None
    }
}

impl TunnelDirection {
    /// The direction named by `s`: `"send"` or `"receive"`.
    pub fn parse(s: &str) -> (r: Option<TunnelDirection>)
        ensures
            r == direction_of(s@),
    {
        let word: String = s.to_owned();
        if word == "send".to_owned() {
            Some(TunnelDirection::Send)
        } else if word == "receive".to_owned() {
            Some(TunnelDirection::Receive)
        } else {
            None
        }
    }

    /// The direction named by `s`, which must be `"send"` or `"receive"`.
    pub fn from(s: &str) -> (r: TunnelDirection)
        requires
            direction_of(s@) is Some,
        ensures
            direction_of(s@) == Some(r),
    {
        match TunnelDirection::parse(s) {
            Some(d) => d,
            None => TunnelDirection::Send,
        }
    }
}

/// One tunnel that the engine supervises.
#[derive(Clone, Debug)]
pub struct Tunnel {
    pub id: String,
    pub direction: TunnelDirection,
    pub local_host: String,
    pub local_port: u16,
    pub remote_host: String,
    pub remote_port: u16,
    pub enabled: bool,
}

/// `t` carries the fields of `c`, with its direction word read.
pub open spec fn tunnel_matches(t: Tunnel, c: TunnelConfig) -> bool {
    &&& t.id@ == c.name@
    &&& direction_of(c.direction@) == Some(t.direction)
    &&& t.local_host@ == c.local_host@
    &&& t.local_port == c.local_port
    &&& t.remote_host@ == c.remote_host@
    &&& t.remote_port == c.remote_port
    &&& t.enabled == c.enabled
}

impl Tunnel {
    /// The tunnel described by `config`, whose direction must be valid.
    pub fn from(config: &TunnelConfig) -> (r: Tunnel)
        requires
            direction_of(config.direction@) is Some,
        ensures
            tunnel_matches(r, *config),
    {
        Tunnel {
            id: config.name.clone(),
            direction: TunnelDirection::from(config.direction.as_str()),
            local_host: config.local_host.clone(),
            local_port: config.local_port,
            remote_host: config.remote_host.clone(),
            remote_port: config.remote_port,
            enabled: config.enabled,
        }
    }
}

} // verus!
