//! The runtime state of one tunnel's supervisor and its reconnect backoff.
use vstd::arithmetic::power2::{lemma_pow2_pos, lemma_pow2_unfold, pow2};
use vstd::prelude::*;

use crate::tunnel::Tunnel;

verus! {

/// The backoff delay before the first reconnect, and after a graceful disconnect.
pub const INITIAL_BACKOFF_SECS: u64 = 1;

/// The wait after the rate limiter refused an attempt.
pub const RATE_LIMIT_COOLDOWN_SECS: u64 = 60;

/// The backoff delay after `k` consecutive failed links:
/// `min(INITIAL_BACKOFF_SECS * 2^k, max_backoff)`.
pub open spec fn backoff_delay(k: nat, max_backoff: u64) -> u64 {
    let d = INITIAL_BACKOFF_SECS * pow2(k);
    if d < max_backoff {
        d as u64
    } else {
        max_backoff
    }
}

/// The delay doubled, but no longer than `max_backoff`.
pub open spec fn grown_delay(d: u64, max_backoff: u64) -> u64 {
    if 2 * d < max_backoff {
        (2 * d) as u64
    } else {
        max_backoff
    }
}

/// Doubling the delay after a failure is the step from `k` to `k + 1` failures.
pub proof fn lemma_backoff_grows(k: nat, max_backoff: u64)
    ensures
        grown_delay(backoff_delay(k, max_backoff), max_backoff) == backoff_delay(
            k + 1,
            max_backoff,
        ),
        backoff_delay(k, max_backoff) <= max_backoff,
{
    lemma_pow2_unfold(k + 1);
    lemma_pow2_pos(k);
}

/// Doubles `d`, keeping it at most `max_backoff`.
pub fn grow_delay(d: u64, max_backoff: u64) -> (r: u64)
    requires
        d <= max_backoff,
    ensures
        r == grown_delay(d, max_backoff),
{
    if d > max_backoff / 2 {
        max_backoff
    } else if 2 * d < max_backoff {
        2 * d
    } else {
        max_backoff
    }
}

/// Where a supervisor stands in its loop.
#[derive(Clone, Copy, Debug, PartialEq, Eq, Structural)]
pub enum Phase {
    /// Not started yet.
    Created,
    /// Waiting out the cooldown after the rate limiter refused an attempt.
    CoolingDown,
    /// A link is being established or is up.
    Linking,
    /// Waiting out the backoff delay before the next attempt.
    BackingOff,
    /// Stopped for good after the shutdown signal.
    Terminated,
}

/// What the hosting program reports to a supervisor.
#[derive(Debug)]
pub enum SupervisorEvent {
    /// The supervisor's task begins.
    Start,
    /// A requested sleep ended, or was cut short by the shutdown signal.
    Woke,
    /// The link ended without an error.
    LinkClosed,
    /// The link failed to start or ended abnormally, with this error text.
    LinkFailed(String),
}

/// What a supervisor asks the hosting program to do next.
#[derive(Clone, Copy, Debug, PartialEq, Eq, Structural)]
pub enum Directive {
    /// Run the link executor once, and report how it ended.
    RunLink,
    /// Sleep this many seconds (or until shutdown is signalled), then report `Woke`.
    Sleep(u64),
    /// The supervisor is done: leave its task.
    Exit,
    /// The event did not fit the supervisor's phase and changed nothing.
    Ignore,
}

/// The mathematical value of a supervisor's runtime state.
pub struct SupervisorView {
    pub tunnel_id: Seq<char>,
    pub phase: Phase,
    pub attempts: u64,
    pub delay_secs: u64,
    pub failure_streak: nat,
    pub last_error: Option<Seq<char>>,
}

/// A new supervisor of tunnel `id`.
pub open spec fn fresh_supervisor(id: Seq<char>, max_backoff: u64) -> SupervisorView {
    SupervisorView {
        tunnel_id: id,
        phase: Phase::Created,
        attempts: 0,
        delay_secs: backoff_delay(0, max_backoff),
        failure_streak: 0,
        last_error: None,
    }
}

/// The state once an attempt was allowed and the link executor is asked for.
pub open spec fn began_attempt(s: SupervisorView) -> SupervisorView {
    SupervisorView {
        phase: Phase::Linking,
        attempts: if s.attempts < u64::MAX {
            (s.attempts + 1) as u64
        } else {
            u64::MAX
        },
        ..s
    }
}

/// The state once the link ended gracefully: the backoff starts over.
pub open spec fn after_close(s: SupervisorView, max_backoff: u64) -> SupervisorView {
    SupervisorView {
        phase: Phase::BackingOff,
        delay_secs: backoff_delay(0, max_backoff),
        failure_streak: 0,
        last_error: None,
        ..s
    }
}

/// The state once the link failed: the backoff doubles, up to `max_backoff`.
pub open spec fn after_failure(
    s: SupervisorView,
    max_backoff: u64,
    err: Seq<char>,
) -> SupervisorView {
    SupervisorView {
        phase: Phase::BackingOff,
        delay_secs: grown_delay(s.delay_secs, max_backoff),
        failure_streak: s.failure_streak + 1,
        last_error: Some(err),
        ..s
    }
}

/// The state in phase `p`, all else unchanged.
pub open spec fn in_phase(s: SupervisorView, p: Phase) -> SupervisorView {
    SupervisorView { phase: p, ..s }
}

/// The runtime state of one tunnel's supervisor.
pub struct TunnelSupervisor {
    tunnel: Tunnel,
    phase: Phase,
    attempts: u64,
    delay_secs: u64,
    failure_streak: Ghost<nat>,
    last_error: Option<String>,
}

impl View for TunnelSupervisor {
    type V = SupervisorView;

    closed spec fn view(&self) -> SupervisorView {
        SupervisorView {
            tunnel_id: self.tunnel.id@,
            phase: self.phase,
            attempts: self.attempts,
            delay_secs: self.delay_secs,
            failure_streak: self.failure_streak@,
            last_error: crate::metrics::opt_string_view(self.last_error),
        }
    }
}

impl TunnelSupervisor {
    /// A supervisor of `tunnel` that has not started.
    pub fn new(tunnel: Tunnel, max_backoff: u64) -> (r: TunnelSupervisor)
        ensures
            r@ == fresh_supervisor(tunnel.id@, max_backoff),
            r.tunnel() == tunnel,
    {
        let delay = if INITIAL_BACKOFF_SECS < max_backoff {
            INITIAL_BACKOFF_SECS
        } else {
            max_backoff
        };
        proof {
            assert(pow2(0) == 1) by {
                vstd::arithmetic::power2::lemma2_to64();
            }
        }
        TunnelSupervisor {
            tunnel,
            phase: Phase::Created,
            attempts: 0,
            delay_secs: delay,
            failure_streak: Ghost(0),
            last_error: None,
        }
    }

    /// The supervised tunnel.
    pub closed spec fn tunnel(&self) -> Tunnel {
        self.tunnel
    }

    /// The supervised tunnel.
    pub fn tunnel_ref(&self) -> (r: &Tunnel)
        ensures
            *r == self.tunnel(),
            r.id@ == self@.tunnel_id,
    {
        &self.tunnel
    }

    /// The phase of the supervisor.
    pub fn phase(&self) -> (r: Phase)
        ensures
            r == self@.phase,
    {
        self.phase
    }

    /// The number of link attempts made so far.
    pub fn attempts(&self) -> (r: u64)
        ensures
            r == self@.attempts,
    {
        self.attempts
    }

    /// The current backoff delay, in seconds.
    pub fn delay_secs(&self) -> (r: u64)
        ensures
            r == self@.delay_secs,
    {
        self.delay_secs
    }

    /// The error text of the last failed link, unless a link closed gracefully since.
    pub fn last_error(&self) -> (r: Option<String>)
        ensures
            crate::metrics::opt_string_view(r) == self@.last_error,
    {
        crate::metrics::copy_opt_string(&self.last_error)
    }

    pub(crate) fn set_phase(&mut self, p: Phase)
        ensures
            final(self)@ == in_phase(old(self)@, p),
            final(self).tunnel() == old(self).tunnel(),
    {
        self.phase = p;
    }

    pub(crate) fn begin_attempt(&mut self)
        ensures
            final(self)@ == began_attempt(old(self)@),
            final(self).tunnel() == old(self).tunnel(),
    {
        self.phase = Phase::Linking;
        self.attempts = self.attempts.saturating_add(1);
    }

    pub(crate) fn link_closed(&mut self, max_backoff: u64)
        ensures
            final(self)@ == after_close(old(self)@, max_backoff),
            final(self).tunnel() == old(self).tunnel(),
    {
        proof {
            assert(pow2(0) == 1) by {
                vstd::arithmetic::power2::lemma2_to64();
            }
        }
        self.phase = Phase::BackingOff;
        self.delay_secs = if INITIAL_BACKOFF_SECS < max_backoff {
            INITIAL_BACKOFF_SECS
        } else {
            max_backoff
        };
        self.failure_streak = Ghost(0);
        self.last_error = None;
    }

    pub(crate) fn link_failed(&mut self, max_backoff: u64, err: String)
        requires
            old(self)@.delay_secs <= max_backoff,
        ensures
            final(self)@ == after_failure(old(self)@, max_backoff, err@),
            final(self).tunnel() == old(self).tunnel(),
    {
        self.phase = Phase::BackingOff;
        self.delay_secs = grow_delay(self.delay_secs, max_backoff);
        self.failure_streak = Ghost(self.failure_streak@ + 1);
        self.last_error = Some(err);
    }
}

} // verus!
