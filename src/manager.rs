//! The engine that owns every supervisor, the shared rate limiter, the status
//! registry and the shutdown signal.  The hosting program runs one task per
//! supervisor; each task reports events with `advance` and performs the
//! directive it gets back, so all decisions are taken here.
use vstd::prelude::*;

use crate::config::{Config, ConfigError, TunnelConfig};
use crate::limiter::{attempt_outcome, AttemptMap, ConnectionLimiter};
use crate::metrics::{
    ids_unique, put_entry, entry_or_default, has_entry, entry_index, settled, with_last_error,
    with_reconnect, with_status, MetricsCollector, TunnelStatsView, TunnelStatus,
};
use crate::report::{status_report, status_report_text};
use crate::security::{has_shell_meta, SecureKeyManager};
use crate::supervisor::{
    after_close, after_failure, backoff_delay, began_attempt, fresh_supervisor, in_phase,
    lemma_backoff_grows, Directive, Phase, SupervisorEvent, SupervisorView, TunnelSupervisor,
    RATE_LIMIT_COOLDOWN_SECS,
};
use crate::tunnel::{direction_of, Tunnel, TunnelDirection};

verus! {

/// The names of the enabled tunnels, in order.
pub open spec fn enabled_names(ts: Seq<TunnelConfig>) -> Seq<Seq<char>>
    decreases ts.len(),
{
    if ts.len() == 0 {
        Seq::empty()
    } else {
        let rest = enabled_names(ts.drop_last());
        if ts.last().enabled {
            rest.push(ts.last().name@)
        } else {
            rest
        }
    }
}

/// Tunnel `i` is enabled and cannot be supervised: its direction is not
/// valid, or an earlier enabled tunnel has its name.
pub open spec fn tunnel_fault(ts: Seq<TunnelConfig>, i: int) -> bool {
    &&& ts[i].enabled
    &&& (direction_of(ts[i].direction@) is None || exists|j: int|
        0 <= j < i && ts[j].enabled && ts[j].name@ == ts[i].name@)
}

/// Tunnel `i` is the first one with a fault.
pub open spec fn first_fault(ts: Seq<TunnelConfig>, i: int) -> bool {
    &&& 0 <= i < ts.len()
    &&& tunnel_fault(ts, i)
    &&& forall|j: int| 0 <= j < i ==> !tunnel_fault(ts, j)
}

/// The window of the limiter, in milliseconds, for a window given in seconds.
pub open spec fn window_millis(secs: u64) -> u64 {
    if secs * 1000 <= u64::MAX {
        (secs * 1000) as u64
    } else {
        u64::MAX
    }
}

/// The mathematical value of the engine.
pub struct ManagerView {
    /// The configured tunnels, enabled or not.
    pub tunnels: Seq<TunnelConfig>,
    /// The host that every link goes through; the key of the rate limiter.
    pub gate_host: Seq<char>,
    pub max_attempts: u32,
    pub window_ms: u64,
    pub max_backoff_secs: u64,
    pub shutdown: bool,
    /// What the rate limiter has recorded.
    pub attempts: AttemptMap,
    /// The status feed.
    pub feed: Seq<TunnelStatsView>,
    /// One supervisor per enabled tunnel, in configuration order.
    pub supervisors: Seq<SupervisorView>,
}

/// The properties that the engine keeps at all times.
pub open spec fn manager_inv(v: ManagerView) -> bool {
    &&& v.supervisors.len() == enabled_names(v.tunnels).len()
    &&& forall|i: int|
        0 <= i < v.supervisors.len() ==> #[trigger] v.supervisors[i].tunnel_id == enabled_names(
            v.tunnels,
        )[i]
    &&& forall|i: int|
        0 <= i < v.supervisors.len() ==> #[trigger] v.supervisors[i].delay_secs == backoff_delay(
            v.supervisors[i].failure_streak,
            v.max_backoff_secs,
        )
    &&& ids_unique(v.feed)
    &&& forall|k: int|
        0 <= k < v.feed.len() ==> enabled_names(v.tunnels).contains(#[trigger] v.feed[k].tunnel_id)
}

/// The engine with supervisor `i` replaced by `s` and the feed replaced by `feed`.
pub open spec fn with_supervisor(
    v: ManagerView,
    i: int,
    s: SupervisorView,
    feed: Seq<TunnelStatsView>,
) -> ManagerView {
    ManagerView { supervisors: v.supervisors.update(i, s), feed, ..v }
}

/// Supervisor `i` stops: it is terminated and its tunnel shows as disconnected.
pub open spec fn terminate_step(v: ManagerView, i: int) -> ManagerView {
    let s = v.supervisors[i];
    with_supervisor(
        v,
        i,
        in_phase(s, Phase::Terminated),
        with_status(v.feed, s.tunnel_id, TunnelStatus::Disconnected),
    )
}

/// The top of supervisor `i`'s loop at `now`: the rate limiter is asked for
/// the gateway host; if it refuses, the tunnel shows an error and the
/// supervisor cools down; otherwise it shows as connecting and a link is run.
pub open spec fn attempt_step(v: ManagerView, i: int, now: u64) -> (ManagerView, Directive) {
    let s = v.supervisors[i];
    let (allowed, attempts) = attempt_outcome(
        v.attempts,
        v.max_attempts,
        v.window_ms,
        v.gate_host,
        now,
    );
    if allowed {
        (
            ManagerView {
                attempts,
                ..with_supervisor(
                    v,
                    i,
                    began_attempt(s),
                    with_status(v.feed, s.tunnel_id, TunnelStatus::Connecting),
                )
            },
            Directive::RunLink,
        )
    } else {
        (
            ManagerView {
                attempts,
                ..with_supervisor(
                    v,
                    i,
                    in_phase(s, Phase::CoolingDown),
                    with_status(v.feed, s.tunnel_id, TunnelStatus::Error),
                )
            },
            Directive::Sleep(RATE_LIMIT_COOLDOWN_SECS),
        )
    }
}

/// The feed once supervisor `i`'s link ended: one more reconnection, the
/// error recorded (none for a graceful end), the outcome's status, and then
/// "connecting" for the retry to come.
pub open spec fn feed_after_link(
    feed: Seq<TunnelStatsView>,
    id: Seq<char>,
    err: Option<Seq<char>>,
) -> Seq<TunnelStatsView> {
    let outcome = if err is Some {
        TunnelStatus::Error
    } else {
        TunnelStatus::Disconnected
    };
    with_status(
        with_status(with_last_error(with_reconnect(feed, id), id, err), id, outcome),
        id,
        TunnelStatus::Connecting,
    )
}

/// Supervisor `i`'s link ended gracefully: the backoff starts over and the
/// supervisor sleeps the initial delay.
pub open spec fn closed_step(v: ManagerView, i: int) -> (ManagerView, Directive) {
    let s = v.supervisors[i];
    let s2 = after_close(s, v.max_backoff_secs);
    (
        with_supervisor(v, i, s2, feed_after_link(v.feed, s.tunnel_id, None)),
        Directive::Sleep(s2.delay_secs),
    )
}

/// Supervisor `i`'s link failed with `err`: the supervisor sleeps its current
/// delay, which then doubles up to the maximum.
pub open spec fn failed_step(v: ManagerView, i: int, err: Seq<char>) -> (ManagerView, Directive) {
    let s = v.supervisors[i];
    (
        with_supervisor(
            v,
            i,
            after_failure(s, v.max_backoff_secs, err),
            feed_after_link(v.feed, s.tunnel_id, Some(err)),
        ),
        Directive::Sleep(s.delay_secs),
    )
}

/// What supervisor `i` does on `event` at `now`: the new engine state and
/// the directive for the hosting program.  A terminated supervisor only
/// exits; once shutdown is signalled, every other supervisor terminates on
/// its next event; an event that does not fit the phase changes nothing.
pub open spec fn step(v: ManagerView, i: int, event: SupervisorEvent, now: u64) -> (
    ManagerView,
    Directive,
) {
    let s = v.supervisors[i];
    if s.phase == Phase::Terminated {
        (v, Directive::Exit)
    } else if v.shutdown {
        (terminate_step(v, i), Directive::Exit)
    } else {
        match event {
            SupervisorEvent::Start => if s.phase == Phase::Created {
                attempt_step(v, i, now)
            } else {
                (v, Directive::Ignore)
            },
            SupervisorEvent::Woke => if s.phase == Phase::CoolingDown || s.phase
                == Phase::BackingOff {
                attempt_step(v, i, now)
            } else {
                (v, Directive::Ignore)
            },
            SupervisorEvent::LinkClosed => if s.phase == Phase::Linking {
                closed_step(v, i)
            } else {
                (v, Directive::Ignore)
            },
            SupervisorEvent::LinkFailed(err) => if s.phase == Phase::Linking {
                failed_step(v, i, err@)
            } else {
                (v, Directive::Ignore)
            },
        }
    }
}

/// Supervisor `i` learns that its link is up: the tunnel shows as
/// connected, unless shutdown was signalled or no link is running.
pub open spec fn established_step(v: ManagerView, i: int) -> ManagerView {
    let s = v.supervisors[i];
    if s.phase == Phase::Linking && !v.shutdown {
        ManagerView { feed: with_status(v.feed, s.tunnel_id, TunnelStatus::Connected), ..v }
    } else {
        v
    }
}

proof fn lemma_put_entry_names(
    s: Seq<TunnelStatsView>,
    id: Seq<char>,
    e: TunnelStatsView,
    names: Seq<Seq<char>>,
)
    requires
        ids_unique(s),
        e.tunnel_id == id,
        names.contains(id),
        forall|k: int| 0 <= k < s.len() ==> names.contains(#[trigger] s[k].tunnel_id),
    ensures
        ids_unique(put_entry(s, id, e)),
        forall|k: int|
            0 <= k < put_entry(s, id, e).len() ==> names.contains(
                #[trigger] put_entry(s, id, e)[k].tunnel_id,
            ),
        entry_or_default(s, id).tunnel_id == id,
{
    if has_entry(s, id) {
        let j = entry_index(s, id);
        assert(s[j].tunnel_id == id);
    }
}

proof fn lemma_feed_after_link_names(
    feed: Seq<TunnelStatsView>,
    id: Seq<char>,
    err: Option<Seq<char>>,
    names: Seq<Seq<char>>,
)
    requires
        ids_unique(feed),
        names.contains(id),
        forall|k: int| 0 <= k < feed.len() ==> names.contains(#[trigger] feed[k].tunnel_id),
    ensures
        ids_unique(feed_after_link(feed, id, err)),
        forall|k: int|
            0 <= k < feed_after_link(feed, id, err).len() ==> names.contains(
                #[trigger] feed_after_link(feed, id, err)[k].tunnel_id,
            ),
{
    let f1 = with_reconnect(feed, id);
    lemma_put_entry_names(feed, id, entry_or_default(feed, id), names);
    let e1 = entry_or_default(feed, id);
    lemma_put_entry_names(
        feed,
        id,
        TunnelStatsView {
            reconnect_count: if e1.reconnect_count < u64::MAX {
                (e1.reconnect_count + 1) as u64
            } else {
                u64::MAX
            },
            ..e1
        },
        names,
    );
    let f2 = with_last_error(f1, id, err);
    lemma_put_entry_names(f1, id, entry_or_default(f1, id), names);
    lemma_put_entry_names(f1, id, TunnelStatsView { last_error: err, ..entry_or_default(f1, id) }, names);
    let outcome = if err is Some {
        TunnelStatus::Error
    } else {
        TunnelStatus::Disconnected
    };
    let f3 = with_status(f2, id, outcome);
    lemma_put_entry_names(f2, id, entry_or_default(f2, id), names);
    lemma_put_entry_names(f2, id, TunnelStatsView { status: outcome, ..entry_or_default(f2, id) }, names);
    lemma_put_entry_names(f3, id, entry_or_default(f3, id), names);
    lemma_put_entry_names(
        f3,
        id,
        TunnelStatsView { status: TunnelStatus::Connecting, ..entry_or_default(f3, id) },
        names,
    );
}

proof fn lemma_with_status_names(
    feed: Seq<TunnelStatsView>,
    id: Seq<char>,
    status: TunnelStatus,
    names: Seq<Seq<char>>,
)
    requires
        ids_unique(feed),
        names.contains(id),
        forall|k: int| 0 <= k < feed.len() ==> names.contains(#[trigger] feed[k].tunnel_id),
    ensures
        ids_unique(with_status(feed, id, status)),
        forall|k: int|
            0 <= k < with_status(feed, id, status).len() ==> names.contains(
                #[trigger] with_status(feed, id, status)[k].tunnel_id,
            ),
{
    lemma_put_entry_names(feed, id, entry_or_default(feed, id), names);
    lemma_put_entry_names(feed, id, TunnelStatsView { status, ..entry_or_default(feed, id) }, names);
}

/// Every step keeps the engine's properties: in particular the feed only
/// ever holds enabled tunnels, and each supervisor's delay stays
/// `backoff_delay` of its count of consecutive failures.
pub proof fn lemma_step_keeps_inv(v: ManagerView, i: int, event: SupervisorEvent, now: u64)
    requires
        manager_inv(v),
        0 <= i < v.supervisors.len(),
    ensures
        manager_inv(step(v, i, event, now).0),
{
    let s = v.supervisors[i];
    let names = enabled_names(v.tunnels);
    assert(names.contains(s.tunnel_id)) by {
        assert(names[i] == s.tunnel_id);
    }
    lemma_backoff_grows(s.failure_streak, v.max_backoff_secs);
    lemma_with_status_names(v.feed, s.tunnel_id, TunnelStatus::Disconnected, names);
    lemma_with_status_names(v.feed, s.tunnel_id, TunnelStatus::Connecting, names);
    lemma_with_status_names(v.feed, s.tunnel_id, TunnelStatus::Error, names);
    lemma_feed_after_link_names(v.feed, s.tunnel_id, None, names);
    match event {
        SupervisorEvent::LinkFailed(err) => {
            lemma_feed_after_link_names(v.feed, s.tunnel_id, Some(err@), names);
        },
        _ => {},
    }
    let r = step(v, i, event, now).0;
    assert forall|j: int| 0 <= j < r.supervisors.len() implies #[trigger] r.supervisors[j].tunnel_id
        == names[j] && r.supervisors[j].delay_secs == backoff_delay(
        r.supervisors[j].failure_streak,
        r.max_backoff_secs,
    ) by {
        if j != i {
            assert(r.supervisors[j] == v.supervisors[j]);
        }
    }
}

/// A supervisor never has two links at once: a link is asked for only by a
/// supervisor that had none running and is now waiting on it, and while its
/// link runs it asks for no other, whatever it is told, until that link has
/// ended.  Other supervisors are left as they were.
pub proof fn lemma_one_link_at_a_time(v: ManagerView, i: int, event: SupervisorEvent, now: u64)
    requires
        0 <= i < v.supervisors.len(),
    ensures
        ({
            let (w, d) = step(v, i, event, now);
            &&& d == Directive::RunLink ==> v.supervisors[i].phase != Phase::Linking
                && w.supervisors[i].phase == Phase::Linking
            &&& v.supervisors[i].phase == Phase::Linking ==> d != Directive::RunLink
            &&& v.supervisors[i].phase == Phase::Linking && w.supervisors[i].phase
                != Phase::Linking ==> (event is LinkClosed || event is LinkFailed || v.shutdown)
            &&& w.supervisors.len() == v.supervisors.len()
            &&& forall|j: int|
                0 <= j < v.supervisors.len() && j != i ==> w.supervisors[j] == v.supervisors[j]
        }),
{
}

/// Once shutdown is signalled, a supervisor's next event, whatever it is
/// (the end of a sleep cut short included), makes it exit, leaving it
/// terminated with its tunnel shown as disconnected.
pub proof fn lemma_shutdown_exits(v: ManagerView, i: int, event: SupervisorEvent, now: u64)
    requires
        0 <= i < v.supervisors.len(),
        v.shutdown,
    ensures
        step(v, i, event, now).1 == Directive::Exit,
        step(v, i, event, now).0.supervisors[i].phase == Phase::Terminated,
        v.supervisors[i].phase != Phase::Terminated ==> step(v, i, event, now).0.feed == with_status(
            v.feed,
            v.supervisors[i].tunnel_id,
            TunnelStatus::Disconnected,
        ),
{
}

/// The backoff delay of a supervisor is always
/// `min(INITIAL_BACKOFF_SECS * 2^k, max_backoff)` where `k` counts its
/// consecutive failed links: a failed link adds one to `k`, a link that
/// closed gracefully resets `k` to 0, and nothing else changes `k` or the delay.
pub proof fn lemma_backoff_follows_failures(
    v: ManagerView,
    i: int,
    event: SupervisorEvent,
    now: u64,
)
    requires
        manager_inv(v),
        0 <= i < v.supervisors.len(),
    ensures
        ({
            let s = v.supervisors[i];
            let t = step(v, i, event, now).0.supervisors[i];
            let link_ended = !v.shutdown && s.phase == Phase::Linking;
            &&& t.delay_secs == backoff_delay(t.failure_streak, v.max_backoff_secs)
            &&& link_ended && event is LinkFailed ==> t.failure_streak == s.failure_streak + 1
            &&& link_ended && event is LinkClosed ==> t.failure_streak == 0
            &&& !(link_ended && (event is LinkFailed || event is LinkClosed)) ==> t.failure_streak
                == s.failure_streak && t.delay_secs == s.delay_secs
        }),
{
    lemma_step_keeps_inv(v, i, event, now);
    assert(step(v, i, event, now).0.supervisors.len() == v.supervisors.len());
}

/// Disabled tunnels stay out of the engine: no supervisor is made for them,
/// the feed never shows them, and no step, whatever its event, spends
/// rate-limiter budget on their behalf.
pub proof fn lemma_disabled_stay_out(
    v: ManagerView,
    name: Seq<char>,
    i: int,
    event: SupervisorEvent,
    now: u64,
)
    requires
        manager_inv(v),
        !enabled_names(v.tunnels).contains(name),
        0 <= i < v.supervisors.len(),
    ensures
        forall|j: int| 0 <= j < v.supervisors.len() ==> v.supervisors[j].tunnel_id != name,
        forall|k: int| 0 <= k < v.feed.len() ==> v.feed[k].tunnel_id != name,
        step(v, i, event, now).0.attempts != v.attempts ==> v.supervisors[i].tunnel_id != name,
{
    assert forall|j: int| 0 <= j < v.supervisors.len() implies v.supervisors[j].tunnel_id
        != name by {
        assert(v.supervisors[j].tunnel_id == enabled_names(v.tunnels)[j]);
    }
}

/// The engine: configuration, rate limiter, status feed, shutdown signal and
/// the supervisors of the enabled tunnels.
pub struct TunnelManager {
    config: Config,
    metrics: MetricsCollector,
    limiter: ConnectionLimiter,
    shutdown: bool,
    supervisors: Vec<TunnelSupervisor>,
}

impl View for TunnelManager {
    type V = ManagerView;

    closed spec fn view(&self) -> ManagerView {
        ManagerView {
            tunnels: self.config.tunnels@,
            gate_host: self.config.gate.host@,
            max_attempts: self.limiter.limit(),
            window_ms: self.limiter.window(),
            max_backoff_secs: self.config.limits.max_backoff_secs,
            shutdown: self.shutdown,
            attempts: self.limiter@,
            feed: self.metrics@,
            supervisors: self.supervisors@.map_values(|s: TunnelSupervisor| s@),
        }
    }
}

impl TunnelManager {
    /// Internal consistency.
    pub closed spec fn wf(&self) -> bool {
        &&& self.limiter.wf()
        &&& manager_inv(self@)
        &&& forall|i: int|
            0 <= i < self.supervisors@.len() ==> #[trigger] self.supervisors@[i].tunnel().id@
                == self.supervisors@[i]@.tunnel_id
    }

    /// Validates `config` and builds the engine: one supervisor per enabled
    /// tunnel, none started.  The gateway host and user must be free of shell
    /// metacharacters (the host is checked first); then each enabled tunnel,
    /// in order, must have a valid direction and a name that no earlier
    /// enabled tunnel has.
    pub fn new(config: Config) -> (r: Result<TunnelManager, ConfigError>)
        ensures
            r is Ok <==> !has_shell_meta(config.gate.host@) && !has_shell_meta(config.gate.user@)
                && forall|i: int| 0 <= i < config.tunnels@.len() ==> !tunnel_fault(config.tunnels@, i),
            has_shell_meta(config.gate.host@) <==> r matches Err(ConfigError::InvalidHost),
            !has_shell_meta(config.gate.host@) && has_shell_meta(config.gate.user@) <==> r matches Err(
                ConfigError::InvalidUser,
            ),
            r matches Err(ConfigError::InvalidDirection(n)) ==> exists|i: int|
                first_fault(config.tunnels@, i) && direction_of(config.tunnels@[i].direction@) is None
                    && n@ == config.tunnels@[i].name@,
            r matches Err(ConfigError::DuplicateTunnel(n)) ==> exists|i: int|
                first_fault(config.tunnels@, i) && direction_of(config.tunnels@[i].direction@) is Some
                    && n@ == config.tunnels@[i].name@,
            r matches Ok(m) ==> {
                &&& m.wf()
                &&& m@.tunnels == config.tunnels@
                &&& m@.gate_host == config.gate.host@
                &&& m@.max_attempts == config.limits.max_attempts
                &&& m@.window_ms == window_millis(config.limits.retry_window_secs)
                &&& m@.max_backoff_secs == config.limits.max_backoff_secs
                &&& !m@.shutdown
                &&& m@.attempts == AttemptMap::empty()
                &&& m@.feed == Seq::<TunnelStatsView>::empty()
                &&& m@.supervisors == enabled_names(config.tunnels@).map_values(
                    |id: Seq<char>| fresh_supervisor(id, config.limits.max_backoff_secs),
                )
            },
    {
        if let Err(e) = SecureKeyManager::sanitize_ssh_args(
            config.gate.host.as_str(),
            config.gate.user.as_str(),
        ) {
            return Err(e);
        }
        let ghost ts = config.tunnels@;
        let n = config.tunnels.len();
        // validation of the enabled tunnels, in order
        let mut i: usize = 0;
        while i < n
            invariant
                n == ts.len(),
                config.tunnels@ == ts,
                i <= n,
                !has_shell_meta(config.gate.host@) && !has_shell_meta(config.gate.user@),
                forall|j: int| 0 <= j < i ==> !tunnel_fault(ts, j),
            decreases n - i,
        {
            let t = &config.tunnels[i];
            if t.enabled {
                if TunnelDirection::parse(t.direction.as_str()).is_none() {
                    proof {
                        assert(first_fault(ts, i as int));
                    }
                    return Err(ConfigError::InvalidDirection(t.name.clone()));
                }
                let mut j: usize = 0;
                while j < i
                    invariant
                        n == ts.len(),
                        config.tunnels@ == ts,
                        j <= i < n,
                        t == ts[i as int],
                        t.enabled,
                        direction_of(t.direction@) is Some,
                        !has_shell_meta(config.gate.host@) && !has_shell_meta(config.gate.user@),
                        forall|m: int| 0 <= m < i ==> !tunnel_fault(ts, m),
                        forall|m: int| 0 <= m < j ==> !(ts[m].enabled && ts[m].name@ == t.name@),
                    decreases i - j,
                {
                    if config.tunnels[j].enabled && config.tunnels[j].name == t.name {
                        proof {
                            assert(tunnel_fault(ts, i as int));
                            assert(first_fault(ts, i as int));
                        }
                        return Err(ConfigError::DuplicateTunnel(t.name.clone()));
                    }
                    j = j + 1;
                }
            }
            proof {
                assert(!tunnel_fault(ts, i as int));
            }
            i = i + 1;
        }
        let max_backoff = config.limits.max_backoff_secs;
        let mut supervisors: Vec<TunnelSupervisor> = Vec::new();
        let mut i: usize = 0;
        while i < n
            invariant
                n == ts.len(),
                config.tunnels@ == ts,
                i <= n,
                forall|j: int| 0 <= j < n ==> !tunnel_fault(ts, j),
                supervisors@.map_values(|s: TunnelSupervisor| s@) == enabled_names(
                    ts.take(i as int),
                ).map_values(|id: Seq<char>| fresh_supervisor(id, max_backoff)),
                forall|j: int|
                    0 <= j < supervisors@.len() ==> #[trigger] supervisors@[j].tunnel().id@
                        == supervisors@[j]@.tunnel_id,
            decreases n - i,
        {
            let ghost before = supervisors@;
            proof {
                assert(ts.take(i + 1).drop_last() =~= ts.take(i as int));
                assert(ts.take(i + 1).last() == ts[i as int]);
            }
            if config.tunnels[i].enabled {
                assert(!tunnel_fault(ts, i as int));
                let tunnel = Tunnel::from(&config.tunnels[i]);
                let sup = TunnelSupervisor::new(tunnel, max_backoff);
                proof {
                    assert(enabled_names(ts.take(i + 1)) == enabled_names(ts.take(i as int)).push(
                        ts[i as int].name@,
                    ));
                    assert(sup@ == fresh_supervisor(ts[i as int].name@, max_backoff));
                }
                supervisors.push(sup);
                proof {
                    assert(supervisors@.map_values(|s: TunnelSupervisor| s@) =~= before.map_values(
                        |s: TunnelSupervisor| s@,
                    ).push(sup@));
                    assert(supervisors@.map_values(|s: TunnelSupervisor| s@) =~= enabled_names(
                        ts.take(i + 1),
                    ).map_values(|id: Seq<char>| fresh_supervisor(id, max_backoff)));
                }
            } else {
                proof {
                    assert(enabled_names(ts.take(i + 1)) == enabled_names(ts.take(i as int)));
                }
            }
            i = i + 1;
        }
        proof {
            assert(ts.take(n as int) =~= ts);
        }
        let window = match config.limits.retry_window_secs.checked_mul(1000) {
            Some(w) => w,
            None => u64::MAX,
        };
        let limiter = ConnectionLimiter::new(config.limits.max_attempts, window);
        let m = TunnelManager {
            config,
            metrics: MetricsCollector::new(),
            limiter,
            shutdown: false,
            supervisors,
        };
        proof {
            let names = enabled_names(ts);
            let sv = m@.supervisors;
            assert(sv.len() == names.len());
            assert forall|k: int| 0 <= k < sv.len() implies #[trigger] sv[k].tunnel_id == names[k]
                && sv[k].delay_secs == backoff_delay(sv[k].failure_streak, max_backoff) by {
                assert(sv[k] == fresh_supervisor(names[k], max_backoff));
            }
        }
        Ok(m)
    }

    /// The configuration the engine runs (with the gateway identity checked).
    pub fn config(&self) -> (r: &Config)
        ensures
            r.tunnels@ == self@.tunnels,
            r.gate.host@ == self@.gate_host,
    {
        &self.config
    }

    /// The status feed.
    pub fn metrics(&self) -> (r: &MetricsCollector)
        ensures
            r@ == self@.feed,
    {
        &self.metrics
    }

    /// The summary of every configured tunnel, as the feed shows it.
    pub fn status_report(&self) -> (r: String)
        requires
            self.wf(),
        ensures
            r@ == status_report_text(self@.feed, self@.gate_host, self@.tunnels),
    {
        status_report(&self.config, &self.metrics)
    }

    /// The number of supervisors, one per enabled tunnel.
    pub fn supervisor_count(&self) -> (r: usize)
        ensures
            r == self@.supervisors.len(),
    {
        self.supervisors.len()
    }

    /// The tunnel of supervisor `i`.
    pub fn tunnel(&self, i: usize) -> (r: &Tunnel)
        requires
            self.wf(),
            i < self@.supervisors.len(),
        ensures
            r.id@ == self@.supervisors[i as int].tunnel_id,
    {
        self.supervisors[i].tunnel_ref()
    }

    /// Supervisor `i`.
    pub fn supervisor(&self, i: usize) -> (r: &TunnelSupervisor)
        requires
            i < self@.supervisors.len(),
        ensures
            r@ == self@.supervisors[i as int],
    {
        &self.supervisors[i]
    }

    /// Whether shutdown has been signalled.
    pub fn is_shutdown_requested(&self) -> (r: bool)
        ensures
            r == self@.shutdown,
    {
        self.shutdown
    }

    /// Signals shutdown.  The signal is never withdrawn; signalling again changes nothing.
    pub fn shutdown(&mut self)
        requires
            old(self).wf(),
        ensures
            final(self).wf(),
            final(self)@ == (ManagerView { shutdown: true, ..old(self)@ }),
    {
        self.shutdown = true;
    }

    /// Forcibly ends every supervisor once the grace period after the
    /// shutdown signal is over: all are terminated, and no tunnel is left
    /// shown as connecting or connected.
    pub fn cancel_all(&mut self)
        requires
            old(self).wf(),
        ensures
            final(self).wf(),
            final(self)@ == (ManagerView {
                shutdown: true,
                feed: old(self)@.feed.map_values(|e: TunnelStatsView| settled(e)),
                supervisors: old(self)@.supervisors.map_values(
                    |s: SupervisorView| in_phase(s, Phase::Terminated),
                ),
                ..old(self)@
            }),
            forall|i: int|
                0 <= i < final(self)@.supervisors.len() ==> #[trigger] final(self)@.supervisors[i].phase
                    == Phase::Terminated,
            forall|k: int|
                0 <= k < final(self)@.feed.len() ==> #[trigger] final(self)@.feed[k].status
                    != TunnelStatus::Connecting && final(self)@.feed[k].status
                    != TunnelStatus::Connected,
    {
        self.shutdown = true;
        let ghost v0 = self@;
        let ghost sups0 = self.supervisors@;
        let ghost metrics0 = self.metrics@;
        let ghost limiter0 = self.limiter;
        let ghost config0 = self.config;
        let mut i: usize = 0;
        while i < self.supervisors.len()
            invariant
                self.metrics@ == metrics0,
                ids_unique(metrics0),
                self.limiter == limiter0,
                self.config == config0,
                self.shutdown,
                i <= self.supervisors@.len(),
                self.supervisors@.len() == sups0.len(),
                forall|j: int|
                    0 <= j < i ==> #[trigger] self.supervisors@[j]@ == in_phase(
                        sups0[j]@,
                        Phase::Terminated,
                    ) && self.supervisors@[j].tunnel() == sups0[j].tunnel(),
                forall|j: int| i <= j < sups0.len() ==> #[trigger] self.supervisors@[j] == sups0[j],
            decreases sups0.len() - i,
        {
            let ghost before = self.supervisors@;
            self.supervisors[i].set_phase(Phase::Terminated);
            proof {
                assert forall|j: int| 0 <= j < before.len() && j != i implies self.supervisors@[j]
                    == before[j] by {}
            }
            i = i + 1;
        }
        self.metrics.settle_all();
        proof {
            assert(self@.supervisors =~= v0.supervisors.map_values(
                |s: SupervisorView| in_phase(s, Phase::Terminated),
            ));
            let names = enabled_names(v0.tunnels);
            assert forall|k: int| 0 <= k < self@.feed.len() implies names.contains(
                #[trigger] self@.feed[k].tunnel_id,
            ) by {
                assert(self@.feed[k].tunnel_id == v0.feed[k].tunnel_id);
            }
            assert forall|j: int| 0 <= j < self.supervisors@.len() implies #[trigger] self.supervisors@[j].tunnel().id@
                == self.supervisors@[j]@.tunnel_id by {
                assert(self.supervisors@[j].tunnel() == sups0[j].tunnel());
            }
        }
    }

    proof fn lemma_wf_kept(&self, other: &TunnelManager)
        requires
            self.wf(),
            self.keeps_tunnels(other),
            manager_inv(other@),
            other@.tunnels == self@.tunnels,
        ensures
            other.wf(),
    {
        assert forall|j: int| 0 <= j < other.supervisors@.len() implies #[trigger] other.supervisors@[j].tunnel().id@
            == other.supervisors@[j]@.tunnel_id by {
            assert(other.supervisors@[j].tunnel() == self.supervisors@[j].tunnel());
            assert(self.supervisors@[j].tunnel().id@ == self.supervisors@[j]@.tunnel_id);
            assert(self@.supervisors[j].tunnel_id == enabled_names(self@.tunnels)[j]);
            assert(other@.supervisors[j].tunnel_id == enabled_names(other@.tunnels)[j]);
        }
    }

    spec fn keeps_tunnels(&self, other: &TunnelManager) -> bool {
        &&& other.supervisors@.len() == self.supervisors@.len()
        &&& forall|j: int|
            0 <= j < self.supervisors@.len() ==> #[trigger] other.supervisors@[j].tunnel()
                == self.supervisors@[j].tunnel()
        &&& other.limiter.wf()
    }

    fn set_supervisor_phase(&mut self, i: usize, p: Phase)
        requires
            old(self).limiter.wf(),
            i < old(self).supervisors@.len(),
        ensures
            old(self).keeps_tunnels(final(self)),
            final(self)@ == (ManagerView {
                supervisors: old(self)@.supervisors.update(
                    i as int,
                    in_phase(old(self)@.supervisors[i as int], p),
                ),
                ..old(self)@
            }),
    {
        let ghost before = self.supervisors@;
        self.supervisors[i].set_phase(p);
        proof {
            assert forall|j: int| 0 <= j < before.len() && j != i implies self.supervisors@[j]
                == before[j] by {}
            assert(self@.supervisors =~= old(self)@.supervisors.update(
                i as int,
                in_phase(old(self)@.supervisors[i as int], p),
            ));
        }
    }

    fn attempt(&mut self, i: usize, now: u64) -> (r: Directive)
        requires
            old(self).wf(),
            i < old(self)@.supervisors.len(),
        ensures
            old(self).keeps_tunnels(final(self)),
            (final(self)@, r) == attempt_step(old(self)@, i as int, now),
    {
        let ghost v0 = self@;
        let ghost before = self.supervisors@;
        let id: String = self.supervisors[i].tunnel_ref().id.clone();
        let allowed = self.limiter.can_attempt_at(self.config.gate.host.as_str(), now);
        if allowed {
            self.metrics.update_tunnel_status(id.as_str(), TunnelStatus::Connecting);
            self.supervisors[i].begin_attempt();
            proof {
                assert forall|j: int| 0 <= j < before.len() && j != i implies self.supervisors@[j]
                    == before[j] by {}
                assert(self@.supervisors =~= v0.supervisors.update(
                    i as int,
                    began_attempt(v0.supervisors[i as int]),
                ));
            }
            Directive::RunLink
        } else {
            self.metrics.update_tunnel_status(id.as_str(), TunnelStatus::Error);
            self.supervisors[i].set_phase(Phase::CoolingDown);
            proof {
                assert forall|j: int| 0 <= j < before.len() && j != i implies self.supervisors@[j]
                    == before[j] by {}
                assert(self@.supervisors =~= v0.supervisors.update(
                    i as int,
                    in_phase(v0.supervisors[i as int], Phase::CoolingDown),
                ));
            }
            Directive::Sleep(RATE_LIMIT_COOLDOWN_SECS)
        }
    }

    fn link_ended(&mut self, i: usize, err: Option<String>) -> (r: Directive)
        requires
            old(self).wf(),
            i < old(self)@.supervisors.len(),
        ensures
            old(self).keeps_tunnels(final(self)),
            (final(self)@, r) == match err {
                Some(e) => failed_step(old(self)@, i as int, e@),
                None => closed_step(old(self)@, i as int),
            },
    {
        let ghost v0 = self@;
        let ghost before = self.supervisors@;
        let id: String = self.supervisors[i].tunnel_ref().id.clone();
        let max_backoff = self.config.limits.max_backoff_secs;
        let ghost sv = v0.supervisors[i as int];
        proof {
            lemma_backoff_grows(sv.failure_streak, max_backoff);
        }
        self.metrics.increment_reconnect(id.as_str());
        match err {
            None => {
                self.metrics.record_error(id.as_str(), None);
                self.metrics.update_tunnel_status(id.as_str(), TunnelStatus::Disconnected);
                self.metrics.update_tunnel_status(id.as_str(), TunnelStatus::Connecting);
                self.supervisors[i].link_closed(max_backoff);
                proof {
                    assert forall|j: int| 0 <= j < before.len() && j != i implies self.supervisors@[j]
                        == before[j] by {}
                    assert(self@.supervisors =~= v0.supervisors.update(
                        i as int,
                        after_close(sv, max_backoff),
                    ));
                }
                let delay = self.supervisors[i].delay_secs();
                Directive::Sleep(delay)
            },
            Some(e) => {
                let delay = self.supervisors[i].delay_secs();
                let copy: String = e.clone();
                self.metrics.record_error(id.as_str(), Some(copy));
                self.metrics.update_tunnel_status(id.as_str(), TunnelStatus::Error);
                self.metrics.update_tunnel_status(id.as_str(), TunnelStatus::Connecting);
                self.supervisors[i].link_failed(max_backoff, e);
                proof {
                    assert forall|j: int| 0 <= j < before.len() && j != i implies self.supervisors@[j]
                        == before[j] by {}
                    assert(self@.supervisors =~= v0.supervisors.update(
                        i as int,
                        after_failure(sv, max_backoff, e@),
                    ));
                }
                Directive::Sleep(delay)
            },
        }
    }

    /// Reports that the link of supervisor `i` is up.
    pub fn link_established(&mut self, i: usize)
        requires
            old(self).wf(),
            i < old(self)@.supervisors.len(),
        ensures
            final(self).wf(),
            final(self)@ == established_step(old(self)@, i as int),
    {
        let ghost v0 = self@;
        if self.supervisors[i].phase() == Phase::Linking && !self.shutdown {
            proof {
                let names = enabled_names(v0.tunnels);
                assert(names[i as int] == v0.supervisors[i as int].tunnel_id);
                lemma_with_status_names(
                    v0.feed,
                    v0.supervisors[i as int].tunnel_id,
                    TunnelStatus::Connected,
                    names,
                );
            }
            let id = self.supervisors[i].tunnel_ref().id.as_str();
            self.metrics.update_tunnel_status(id, TunnelStatus::Connected);
        }
    }

    /// Reports `event` to supervisor `i` at `now` (milliseconds on the
    /// clock the rate limiter is read with) and returns what the hosting
    /// program must do next for it.  See [`step`].
    pub fn advance(&mut self, i: usize, event: SupervisorEvent, now: u64) -> (r: Directive)
        requires
            old(self).wf(),
            i < old(self)@.supervisors.len(),
        ensures
            final(self).wf(),
            (final(self)@, r) == step(old(self)@, i as int, event, now),
    {
        proof {
            lemma_step_keeps_inv(self@, i as int, event, now);
        }
        let ghost v0 = self@;
        let ghost old_self = *self;
        let phase = self.supervisors[i].phase();
        if phase == Phase::Terminated {
            return Directive::Exit;
        }
        if self.shutdown {
            let id = self.supervisors[i].tunnel_ref().id.as_str();
            self.metrics.update_tunnel_status(id, TunnelStatus::Disconnected);
            self.set_supervisor_phase(i, Phase::Terminated);
            proof {
                assert(self@ == terminate_step(v0, i as int));
                old_self.lemma_wf_kept(self);
            }
            return Directive::Exit;
        }
        let r = match event {
            SupervisorEvent::Start => {
                if phase == Phase::Created {
                    self.attempt(i, now)
                } else {
                    Directive::Ignore
                }
            },
            SupervisorEvent::Woke => {
                if phase == Phase::CoolingDown || phase == Phase::BackingOff {
                    self.attempt(i, now)
                } else {
                    Directive::Ignore
                }
            },
            SupervisorEvent::LinkClosed => {
                if phase == Phase::Linking {
                    self.link_ended(i, None)
                } else {
                    Directive::Ignore
                }
            },
            SupervisorEvent::LinkFailed(err) => {
                if phase == Phase::Linking {
                    self.link_ended(i, Some(err))
                } else {
                    Directive::Ignore
                }
            },
        };
        proof {
            if r != Directive::Ignore {
                old_self.lemma_wf_kept(self);
            }
        }
        r
    }
}

} // verus!
