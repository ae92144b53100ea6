//! The status registry: the last known status and counters of each tunnel,
//! written by the supervisors and read by reporting.
use std::time::Instant;
use vstd::prelude::*;
use vstd::string::*;

use crate::clock::{clock_now, elapsed_millis};
use crate::text::{decimal, push_decimal};

verus! {

/// Externally visible state of one tunnel.
#[derive(Clone, Copy, Debug, PartialEq, Eq, Structural)]
pub enum TunnelStatus {
    Connected,
    Connecting,
    Disconnected,
    Error,
}

/// Status and counters of one tunnel, as published in the registry.
#[derive(Debug)]
pub struct TunnelStats {
    pub tunnel_id: String,
    pub status: TunnelStatus,
    pub uptime_secs: u64,
    pub reconnect_count: u64,
    pub bytes_sent: u64,
    pub bytes_received: u64,
    pub last_error: Option<String>,
    pub connection_latency_ms: Option<u64>,
}

/// The mathematical value of a [`TunnelStats`].
pub struct TunnelStatsView {
    pub tunnel_id: Seq<char>,
    pub status: TunnelStatus,
    pub uptime_secs: u64,
    pub reconnect_count: u64,
    pub bytes_sent: u64,
    pub bytes_received: u64,
    pub last_error: Option<Seq<char>>,
    pub connection_latency_ms: Option<u64>,
}

pub open spec fn opt_string_view(o: Option<String>) -> Option<Seq<char>> {
    match o {
        Some(s) => Some(s@),
        None => None,
    }
}

impl View for TunnelStats {
    type V = TunnelStatsView;

    open spec fn view(&self) -> TunnelStatsView {
        TunnelStatsView {
            tunnel_id: self.tunnel_id@,
            status: self.status,
            uptime_secs: self.uptime_secs,
            reconnect_count: self.reconnect_count,
            bytes_sent: self.bytes_sent,
            bytes_received: self.bytes_received,
            last_error: opt_string_view(self.last_error),
            connection_latency_ms: self.connection_latency_ms,
        }
    }
}

/// The entry of a tunnel that nothing has been recorded for yet.
pub open spec fn default_stats(id: Seq<char>) -> TunnelStatsView {
    TunnelStatsView {
        tunnel_id: id,
        status: TunnelStatus::Disconnected,
        uptime_secs: 0,
        reconnect_count: 0,
        bytes_sent: 0,
        bytes_received: 0,
        last_error: None,
        connection_latency_ms: None,
    }
}

pub(crate) fn copy_opt_string(o: &Option<String>) -> (r: Option<String>)
    ensures
        opt_string_view(r) == opt_string_view(*o),
{
    match o {
        Some(s) => Some(s.clone()),
        None => None,
    }
}

impl TunnelStats {
    /// The entry of a tunnel that nothing has been recorded for yet.
    pub fn for_tunnel(id: &str) -> (r: TunnelStats)
        ensures
            r@ == default_stats(id@),
    {
        TunnelStats {
            tunnel_id: id.to_owned(),
            status: TunnelStatus::Disconnected,
            uptime_secs: 0,
            reconnect_count: 0,
            bytes_sent: 0,
            bytes_received: 0,
            last_error: None,
            connection_latency_ms: None,
        }
    }

    /// A copy of this entry.
    pub fn snapshot(&self) -> (r: TunnelStats)
        ensures
            r@ == self@,
    {
        TunnelStats {
            tunnel_id: self.tunnel_id.clone(),
            status: self.status,
            uptime_secs: self.uptime_secs,
            reconnect_count: self.reconnect_count,
            bytes_sent: self.bytes_sent,
            bytes_received: self.bytes_received,
            last_error: copy_opt_string(&self.last_error),
            connection_latency_ms: self.connection_latency_ms,
        }
    }
}

impl Default for TunnelStats {
    fn default() -> (r: TunnelStats)
        ensures
            r@ == default_stats(Seq::empty()),
    {
        TunnelStats {
            tunnel_id: String::new(),
            status: TunnelStatus::Disconnected,
            uptime_secs: 0,
            reconnect_count: 0,
            bytes_sent: 0,
            bytes_received: 0,
            last_error: None,
            connection_latency_ms: None,
        }
    }
}

/// Whether the entries hold one for `id`.
pub open spec fn has_entry(s: Seq<TunnelStatsView>, id: Seq<char>) -> bool {
    exists|i: int| 0 <= i < s.len() && s[i].tunnel_id == id
}

/// Position of the entry for `id` (meaningful where there is one).
pub open spec fn entry_index(s: Seq<TunnelStatsView>, id: Seq<char>) -> int {
    choose|i: int| 0 <= i < s.len() && s[i].tunnel_id == id
}

/// The entry for `id`, or a fresh one where there is none.
pub open spec fn entry_or_default(s: Seq<TunnelStatsView>, id: Seq<char>) -> TunnelStatsView {
    if has_entry(s, id) {
        s[entry_index(s, id)]
    } else {
        default_stats(id)
    }
}

/// The entries with the one for `id` replaced by `e`, or with `e` added last
/// where there was none.
pub open spec fn put_entry(
    s: Seq<TunnelStatsView>,
    id: Seq<char>,
    e: TunnelStatsView,
) -> Seq<TunnelStatsView> {
    if has_entry(s, id) {
        s.update(entry_index(s, id), e)
    } else {
        s.push(e)
    }
}

/// The entries after `status` is recorded for `id`.
pub open spec fn with_status(
    s: Seq<TunnelStatsView>,
    id: Seq<char>,
    status: TunnelStatus,
) -> Seq<TunnelStatsView> {
    put_entry(s, id, TunnelStatsView { status, ..entry_or_default(s, id) })
}

/// The entries after one more reconnection is counted for `id` (the counter
/// stops at its largest value).
pub open spec fn with_reconnect(s: Seq<TunnelStatsView>, id: Seq<char>) -> Seq<TunnelStatsView> {
    let e = entry_or_default(s, id);
    put_entry(
        s,
        id,
        TunnelStatsView {
            reconnect_count: if e.reconnect_count < u64::MAX {
                (e.reconnect_count + 1) as u64
            } else {
                u64::MAX
            },
            ..e
        },
    )
}

/// The entries after `err` is recorded as the last error of `id`.
pub open spec fn with_last_error(
    s: Seq<TunnelStatsView>,
    id: Seq<char>,
    err: Option<Seq<char>>,
) -> Seq<TunnelStatsView> {
    put_entry(s, id, TunnelStatsView { last_error: err, ..entry_or_default(s, id) })
}

proof fn lemma_put_entry_again(
    s: Seq<TunnelStatsView>,
    id: Seq<char>,
    e: TunnelStatsView,
    x: TunnelStatsView,
    r: int,
)
    requires
        has_entry(s, id) ==> r == entry_index(s, id),
        !has_entry(s, id) ==> r == s.len(),
    ensures
        put_entry(s, id, e).update(r, x) =~= put_entry(s, id, x),
{
    if has_entry(s, id) {
        let j = entry_index(s, id);
        assert(0 <= j < s.len());
    }
}

/// `e` with a live status (connecting or connected) replaced by disconnected.
pub open spec fn settled(e: TunnelStatsView) -> TunnelStatsView {
    if e.status == TunnelStatus::Connecting || e.status == TunnelStatus::Connected {
        TunnelStatsView { status: TunnelStatus::Disconnected, ..e }
    } else {
        e
    }
}

/// Each tunnel has at most one entry.
pub open spec fn ids_unique(s: Seq<TunnelStatsView>) -> bool {
    forall|i: int, j: int|
        0 <= i < s.len() && 0 <= j < s.len() && i != j ==> s[i].tunnel_id != s[j].tunnel_id
}

/// The number that stands for a status in the exported metrics.
pub open spec fn status_code(s: TunnelStatus) -> nat {
    match s {
        TunnelStatus::Connected => 1,
        TunnelStatus::Connecting => 2,
        TunnelStatus::Disconnected => 3,
        TunnelStatus::Error => 4,
    }
}

/// The exported lines of one entry.
pub open spec fn prometheus_entry(e: TunnelStatsView) -> Seq<char> {
    "mtunnel_reconnects_total{tunnel=\""@ + e.tunnel_id + "\"} "@ + decimal(
        e.reconnect_count as nat,
    ) + "\n"@ + "mtunnel_status{tunnel=\""@ + e.tunnel_id + "\"} "@ + decimal(
        status_code(e.status),
    ) + "\n"@
}

/// The exported lines of the entries, in order.
pub open spec fn prometheus_entries(s: Seq<TunnelStatsView>) -> Seq<char>
    decreases s.len(),
{
    if s.len() == 0 {
        Seq::empty()
    } else {
        prometheus_entries(s.drop_last()) + prometheus_entry(s.last())
    }
}

/// The whole export: the uptime, then each entry's lines.
pub open spec fn prometheus_text(s: Seq<TunnelStatsView>, uptime_secs: u64) -> Seq<char> {
    "# HELP mtunnel_uptime_seconds Total uptime in seconds\n"@
        + "# TYPE mtunnel_uptime_seconds counter\n"@ + "mtunnel_uptime_seconds "@ + decimal(
        uptime_secs as nat,
    ) + "\n"@ + prometheus_entries(s)
}

/// Registry of the last known status of each tunnel, in the order in which
/// the tunnels were first recorded.
pub struct MetricsCollector {
    stats: Vec<TunnelStats>,
    start_time: Instant,
}

impl View for MetricsCollector {
    type V = Seq<TunnelStatsView>;

    closed spec fn view(&self) -> Seq<TunnelStatsView> {
        self.stats@.map_values(|e: TunnelStats| e@)
    }
}

fn status_number(s: TunnelStatus) -> (r: u64)
    ensures
        r as nat == status_code(s),
{
    match s {
        TunnelStatus::Connected => 1,
        TunnelStatus::Connecting => 2,
        TunnelStatus::Disconnected => 3,
        TunnelStatus::Error => 4,
    }
}

impl MetricsCollector {
    /// An empty registry.
    pub fn new() -> (r: MetricsCollector)
        ensures
            r@ == Seq::<TunnelStatsView>::empty(),
            ids_unique(r@),
    {
        let r = MetricsCollector { stats: Vec::new(), start_time: clock_now() };
        assert(r@ =~= Seq::<TunnelStatsView>::empty());
        r
    }

    /// Position of the entry of `id`, adding a fresh entry where there is none.
    fn entry_position(&mut self, id: &str) -> (r: usize)
        requires
            ids_unique(old(self)@),
        ensures
            ids_unique(final(self)@),
            r < final(self)@.len(),
            final(self)@ == put_entry(old(self)@, id@, entry_or_default(old(self)@, id@)),
            final(self)@[r as int] == entry_or_default(old(self)@, id@),
            final(self)@[r as int].tunnel_id == id@,
            has_entry(old(self)@, id@) ==> r == entry_index(old(self)@, id@),
            !has_entry(old(self)@, id@) ==> r == old(self)@.len(),
    {
        let ghost s0 = self@;
        let key: String = id.to_owned();
        let mut i: usize = 0;
        while i < self.stats.len()
            invariant
                i <= self.stats@.len(),
                self@ == s0,
                ids_unique(s0),
                key@ == id@,
                forall|m: int| 0 <= m < i ==> self.stats@[m].tunnel_id@ != id@,
            decreases self.stats@.len() - i,
        {
            if self.stats[i].tunnel_id == key {
                proof {
                    assert(s0[i as int] == self.stats@[i as int]@);
                    assert(s0[i as int].tunnel_id == id@);
                    assert(has_entry(s0, id@));
                    let j = entry_index(s0, id@);
                    assert(s0[j].tunnel_id == id@);
                    assert(j == i);
                    assert(s0.update(i as int, s0[i as int]) =~= s0);
                }
                return i;
            }
            i = i + 1;
        }
        proof {
            assert(!has_entry(s0, id@)) by {
                if has_entry(s0, id@) {
                    let j = choose|j: int| 0 <= j < s0.len() && s0[j].tunnel_id == id@;
                    assert(self.stats@[j].tunnel_id@ == id@);
                }
            }
        }
        self.stats.push(TunnelStats::for_tunnel(id));
        proof {
            assert(self@ =~= s0.push(default_stats(id@)));
        }
        i
    }

    /// Records `status` as the status of `id`, adding an entry for it where
    /// there is none.
    pub fn update_tunnel_status(&mut self, id: &str, status: TunnelStatus)
        requires
            ids_unique(old(self)@),
        ensures
            ids_unique(final(self)@),
            final(self)@ == with_status(old(self)@, id@, status),
    {
        let i = self.entry_position(id);
        self.stats[i].status = status;
        proof {
            let ghost mid = put_entry(old(self)@, id@, entry_or_default(old(self)@, id@));
            assert(self@ =~= mid.update(i as int, TunnelStatsView { status, ..entry_or_default(old(self)@, id@) }));
            lemma_put_entry_again(old(self)@, id@, entry_or_default(old(self)@, id@), TunnelStatsView { status, ..entry_or_default(old(self)@, id@) }, i as int);
        }
    }

    /// Counts one more reconnection of `id`, adding an entry for it where there is none.
    pub fn increment_reconnect(&mut self, id: &str)
        requires
            ids_unique(old(self)@),
        ensures
            ids_unique(final(self)@),
            final(self)@ == with_reconnect(old(self)@, id@),
    {
        let i = self.entry_position(id);
        let n = self.stats[i].reconnect_count;
        self.stats[i].reconnect_count = n.saturating_add(1);
        proof {
            let ghost e = entry_or_default(old(self)@, id@);
            let ghost x = TunnelStatsView {
                reconnect_count: if e.reconnect_count < u64::MAX {
                    (e.reconnect_count + 1) as u64
                } else {
                    u64::MAX
                },
                ..e
            };
            let ghost mid = put_entry(old(self)@, id@, e);
            assert(self@ =~= mid.update(i as int, x));
            lemma_put_entry_again(old(self)@, id@, e, x, i as int);
        }
    }

    /// Records `err` as the last error of `id`, adding an entry for it where there is none.
    pub fn record_error(&mut self, id: &str, err: Option<String>)
        requires
            ids_unique(old(self)@),
        ensures
            ids_unique(final(self)@),
            final(self)@ == with_last_error(old(self)@, id@, opt_string_view(err)),
    {
        let i = self.entry_position(id);
        self.stats[i].last_error = err;
        proof {
            let ghost mid = put_entry(old(self)@, id@, entry_or_default(old(self)@, id@));
            assert(self@ =~= mid.update(i as int, TunnelStatsView { last_error: opt_string_view(err), ..entry_or_default(old(self)@, id@) }));
            lemma_put_entry_again(old(self)@, id@, entry_or_default(old(self)@, id@), TunnelStatsView { last_error: opt_string_view(err), ..entry_or_default(old(self)@, id@) }, i as int);
        }
    }

    /// Marks every tunnel that is connecting or connected as disconnected.
    pub fn settle_all(&mut self)
        requires
            ids_unique(old(self)@),
        ensures
            ids_unique(final(self)@),
            final(self)@ == old(self)@.map_values(|e: TunnelStatsView| settled(e)),
    {
        let ghost s0 = self@;
        let mut i: usize = 0;
        while i < self.stats.len()
            invariant
                i <= self.stats@.len(),
                self@.len() == s0.len(),
                forall|j: int| 0 <= j < i ==> self@[j] == settled(s0[j]),
                forall|j: int| i <= j < s0.len() ==> self@[j] == s0[j],
            decreases self.stats@.len() - i,
        {
            let ghost before = self.stats@;
            let ghost before_view = self@;
            let st = self.stats[i].status;
            if st == TunnelStatus::Connecting || st == TunnelStatus::Connected {
                self.stats[i].status = TunnelStatus::Disconnected;
            }
            proof {
                assert forall|j: int| 0 <= j < self@.len() && j != i implies self@[j] == before[j]@ by {
                    assert(self.stats@[j] == before[j]);
                }
                assert forall|j: int| 0 <= j < i implies self@[j] == settled(s0[j]) by {
                    assert(self@[j] == before[j]@);
                    assert(before_view[j] == before[j]@);
                }
                assert(self@[i as int] == settled(s0[i as int]));
            }
            i = i + 1;
        }
        assert(self@ =~= s0.map_values(|e: TunnelStatsView| settled(e)));
    }

    /// A copy of every entry, in order.
    pub fn get_summary(&self) -> (r: Vec<TunnelStats>)
        ensures
            r@.map_values(|e: TunnelStats| e@) == self@,
    {
        let mut out: Vec<TunnelStats> = Vec::new();
        let mut i: usize = 0;
        while i < self.stats.len()
            invariant
                i <= self.stats@.len(),
                out@.len() == i,
                forall|j: int| 0 <= j < i ==> out@[j]@ == self.stats@[j]@,
            decreases self.stats@.len() - i,
        {
            out.push(self.stats[i].snapshot());
            i = i + 1;
        }
        assert(out@.map_values(|e: TunnelStats| e@) =~= self@);
        out
    }

    /// The entry of `id`, if there is one.
    pub fn get(&self, id: &str) -> (r: Option<TunnelStats>)
        requires
            ids_unique(self@),
        ensures
            match r {
                Some(e) => has_entry(self@, id@) && e@ == self@[entry_index(self@, id@)],
                None => !has_entry(self@, id@),
            },
    {
        let key: String = id.to_owned();
        let mut i: usize = 0;
        while i < self.stats.len()
            invariant
                i <= self.stats@.len(),
                ids_unique(self@),
                key@ == id@,
                forall|m: int| 0 <= m < i ==> self.stats@[m].tunnel_id@ != id@,
            decreases self.stats@.len() - i,
        {
            if self.stats[i].tunnel_id == key {
                proof {
                    assert(self@[i as int] == self.stats@[i as int]@);
                    assert(self@[i as int].tunnel_id == id@);
                    assert(has_entry(self@, id@));
                    let j = entry_index(self@, id@);
                    assert(j == i);
                }
                return Some(self.stats[i].snapshot());
            }
            i = i + 1;
        }
        proof {
            if has_entry(self@, id@) {
                let j = choose|j: int| 0 <= j < self@.len() && self@[j].tunnel_id == id@;
                assert(self.stats@[j].tunnel_id@ == id@);
            }
        }
        None
    }

    /// The metrics in Prometheus text format, given the uptime in seconds.
    pub fn export_prometheus_at(&self, uptime_secs: u64) -> (r: String)
        ensures
            r@ == prometheus_text(self@, uptime_secs),
    {
        let mut out = String::new();
        out.append("# HELP mtunnel_uptime_seconds Total uptime in seconds\n");
        out.append("# TYPE mtunnel_uptime_seconds counter\n");
        out.append("mtunnel_uptime_seconds ");
        push_decimal(&mut out, uptime_secs);
        out.append("\n");
        let ghost head = out@;
        let mut i: usize = 0;
        while i < self.stats.len()
            invariant
                i <= self.stats@.len(),
                out@ == head + prometheus_entries(self@.take(i as int)),
                head + prometheus_entries(self@) == prometheus_text(self@, uptime_secs),
            decreases self.stats@.len() - i,
        {
            let e = &self.stats[i];
            let ghost before = out@;
            out.append("mtunnel_reconnects_total{tunnel=\"");
            out.append(e.tunnel_id.as_str());
            out.append("\"} ");
            push_decimal(&mut out, e.reconnect_count);
            out.append("\n");
            out.append("mtunnel_status{tunnel=\"");
            out.append(e.tunnel_id.as_str());
            out.append("\"} ");
            push_decimal(&mut out, status_number(e.status));
            out.append("\n");
            proof {
                assert(self@.take(i + 1).drop_last() =~= self@.take(i as int));
                assert(self@.take(i + 1).last() == e@);
                assert(out@ =~= before + prometheus_entry(e@));
            }
            i = i + 1;
        }
        assert(self@.take(self@.len() as int) =~= self@);
        out
    }

    /// The metrics in Prometheus text format, with the time since the
    /// registry was made as its uptime.
    pub fn export_prometheus(&self) -> (r: String)
        ensures
            exists|uptime_secs: u64| r@ == prometheus_text(self@, uptime_secs),
    {
        let uptime_secs = elapsed_millis(&self.start_time) / 1000;
        self.export_prometheus_at(uptime_secs)
    }
}

} // verus!
