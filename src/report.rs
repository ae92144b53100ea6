//! The periodic human-readable summary of every configured tunnel.
use vstd::prelude::*;
use vstd::string::*;

use crate::config::{Config, TunnelConfig};
use crate::metrics::{
    entry_index, has_entry, ids_unique, MetricsCollector, TunnelStatsView, TunnelStatus,
};
use crate::text::{decimal, push_decimal};

verus! {

/// How a tunnel is summarised.
pub enum ReportState {
    /// Its link is up.
    Active,
    /// Not up, after this many reconnections.
    Reconnecting(u64),
    /// Not up, and never reconnected (or not supervised at all).
    Inactive,
}

/// The summary state of the tunnel named `name`, from the feed.
pub open spec fn report_state(feed: Seq<TunnelStatsView>, name: Seq<char>) -> ReportState {
    if has_entry(feed, name) {
        let e = feed[entry_index(feed, name)];
        if e.status == TunnelStatus::Connected {
            ReportState::Active
        } else if e.reconnect_count > 0 {
            ReportState::Reconnecting(e.reconnect_count)
        } else {
            ReportState::Inactive
        }
    } else {
        ReportState::Inactive
    }
}

/// The summary line of tunnel `t`, reached through `host`.
pub open spec fn report_line(feed: Seq<TunnelStatsView>, host: Seq<char>, t: TunnelConfig) -> Seq<
    char,
> {
    let target = t.name@ + " → "@ + host + ":"@ + decimal(t.remote_port as nat);
    match report_state(feed, t.name@) {
        ReportState::Active => "  ✓ "@ + target + " (Active)\n"@,
        ReportState::Reconnecting(n) => "  ⚠ "@ + target + " (Reconnecting, "@ + decimal(n as nat)
            + " attempts)\n"@,
        ReportState::Inactive => "  ✗ "@ + target + " (Inactive)\n"@,
    }
}

/// The summary lines of the tunnels, in order.
pub open spec fn report_lines(
    feed: Seq<TunnelStatsView>,
    host: Seq<char>,
    ts: Seq<TunnelConfig>,
) -> Seq<char>
    decreases ts.len(),
{
    if ts.len() == 0 {
        Seq::empty()
    } else {
        report_lines(feed, host, ts.drop_last()) + report_line(feed, host, ts.last())
    }
}

/// The number of tunnels whose link is up.
pub open spec fn active_count(feed: Seq<TunnelStatsView>, ts: Seq<TunnelConfig>) -> nat
    decreases ts.len(),
{
    if ts.len() == 0 {
        0
    } else {
        active_count(feed, ts.drop_last()) + if report_state(feed, ts.last().name@) is Active {
            1nat
        } else {
            0nat
        }
    }
}

/// The whole summary: a heading with the count of active tunnels, then one
/// line per configured tunnel.
pub open spec fn status_report_text(
    feed: Seq<TunnelStatsView>,
    host: Seq<char>,
    ts: Seq<TunnelConfig>,
) -> Seq<char> {
    "Tunnel Status Report ("@ + decimal(active_count(feed, ts)) + "/"@ + decimal(ts.len())
        + " active):\n"@ + report_lines(feed, host, ts)
}

fn state_of(metrics: &MetricsCollector, name: &str) -> (r: ReportState)
    requires
        ids_unique(metrics@),
    ensures
        r == report_state(metrics@, name@),
{
    match metrics.get(name) {
        Some(e) => {
            if e.status == TunnelStatus::Connected {
                ReportState::Active
            } else if e.reconnect_count > 0 {
                ReportState::Reconnecting(e.reconnect_count)
            } else {
                ReportState::Inactive
            }
        },
        None => ReportState::Inactive,
    }
}

/// The summary of every configured tunnel (enabled or not) as the feed of
/// `metrics` shows it, each reached through the gateway host of `config`.
pub fn status_report(config: &Config, metrics: &MetricsCollector) -> (r: String)
    requires
        ids_unique(metrics@),
    ensures
        r@ == status_report_text(metrics@, config.gate.host@, config.tunnels@),
{
    let ghost feed = metrics@;
    let ghost host = config.gate.host@;
    let ghost ts = config.tunnels@;
    let mut lines = String::new();
    let mut active: usize = 0;
    let mut i: usize = 0;
    while i < config.tunnels.len()
        invariant
            i <= ts.len(),
            ts == config.tunnels@,
            feed == metrics@,
            ids_unique(feed),
            host == config.gate.host@,
            lines@ == report_lines(feed, host, ts.take(i as int)),
            active as nat == active_count(feed, ts.take(i as int)),
            active <= i,
        decreases ts.len() - i,
    {
        let t = &config.tunnels[i];
        let ghost before = lines@;
        proof {
            assert(ts.take(i + 1).drop_last() =~= ts.take(i as int));
            assert(ts.take(i + 1).last() == *t);
        }
        let state = state_of(metrics, t.name.as_str());
        match state {
            ReportState::Active => {
                lines.append("  ✓ ");
            },
            ReportState::Reconnecting(_) => {
                lines.append("  ⚠ ");
            },
            ReportState::Inactive => {
                lines.append("  ✗ ");
            },
        }
        lines.append(t.name.as_str());
        lines.append(" → ");
        lines.append(config.gate.host.as_str());
        lines.append(":");
        push_decimal(&mut lines, t.remote_port as u64);
        match state {
            ReportState::Active => {
                lines.append(" (Active)\n");
                active = active + 1;
            },
            ReportState::Reconnecting(n) => {
                lines.append(" (Reconnecting, ");
                push_decimal(&mut lines, n);
                lines.append(" attempts)\n");
            },
            ReportState::Inactive => {
                lines.append(" (Inactive)\n");
            },
        }
        proof {
            assert(lines@ =~= before + report_line(feed, host, *t));
        }
        i = i + 1;
    }
    proof {
        assert(ts.take(ts.len() as int) =~= ts);
    }
    let mut out = String::new();
    out.append("Tunnel Status Report (");
    push_decimal(&mut out, active as u64);
    out.append("/");
    push_decimal(&mut out, config.tunnels.len() as u64);
    out.append(" active):\n");
    out.append(lines.as_str());
    out
}

} // verus!
