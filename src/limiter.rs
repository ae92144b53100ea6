//! Sliding-window limiter of connection attempts, keyed by the host that an
//! attempt targets.
use std::time::Instant;
use vstd::prelude::*;

use crate::clock::{clock_now, elapsed_millis};

verus! {

/// Attempts recorded per key: the attempt count and the start of its window.
pub type AttemptMap = Map<Seq<char>, (u32, u64)>;

/// Time that went by from `start` to `now`; a reading before `start` counts as none.
pub open spec fn elapsed(now: u64, start: u64) -> int {
    if now >= start {
        now - start
    } else {
        0
    }
}

/// The entries whose window is still open at `now`.
pub open spec fn live_attempts(m: AttemptMap, now: u64, window: u64) -> AttemptMap {
    Map::new(
        |k: Seq<char>| m.contains_key(k) && elapsed(now, m[k].1) < window,
        |k: Seq<char>| m[k],
    )
}

/// One check of `key` at `now`: whether the attempt is allowed, and the entries after it.
/// Stale entries of every key are dropped first.
pub open spec fn attempt_outcome(
    m: AttemptMap,
    max_attempts: u32,
    window: u64,
    key: Seq<char>,
    now: u64,
) -> (bool, AttemptMap) {
    let live = live_attempts(m, now, window);
    if !live.contains_key(key) {
        (true, live.insert(key, (1u32, now)))
    } else if live[key].0 >= max_attempts {
        (false, live)
    } else {
        (true, live.insert(key, ((live[key].0 + 1) as u32, live[key].1)))
    }
}

/// The answers to successive checks of `key` at the readings `times`, in order,
/// and the entries after the last of them.
pub open spec fn check_run(
    m: AttemptMap,
    max_attempts: u32,
    window: u64,
    key: Seq<char>,
    times: Seq<u64>,
) -> (Seq<bool>, AttemptMap)
    decreases times.len(),
{
    if times.len() == 0 {
        (Seq::empty(), m)
    } else {
        let prev = check_run(m, max_attempts, window, key, times.drop_last());
        let step = attempt_outcome(prev.1, max_attempts, window, key, times.last());
        (prev.0.push(step.0), step.1)
    }
}

/// Readings that never go back in time.
pub open spec fn nondecreasing(times: Seq<u64>) -> bool {
    forall|i: int, j: int| 0 <= i <= j < times.len() ==> times[i] <= times[j]
}

proof fn lemma_check_run_prefix(
    m: AttemptMap,
    max_attempts: u32,
    window: u64,
    key: Seq<char>,
    times: Seq<u64>,
    n: int,
)
    requires
        max_attempts >= 1,
        1 <= n <= times.len(),
        nondecreasing(times),
        times[times.len() - 1] < times[0] + window,
        !live_attempts(m, times[0], window).contains_key(key),
    ensures
        ({
            let run = check_run(m, max_attempts, window, key, times.take(n));
            &&& run.0.len() == n
            &&& forall|i: int| 0 <= i < n ==> run.0[i] == (i < max_attempts)
            &&& run.1.contains_key(key)
            &&& run.1[key].1 == times[0]
            &&& run.1[key].0 as int == if n <= max_attempts {
                n
            } else {
                max_attempts as int
            }
        }),
    decreases n,
{
    let pre = times.take(n);
    assert(pre.drop_last() =~= times.take(n - 1));
    assert(pre.last() == times[n - 1]);
    let prev = check_run(m, max_attempts, window, key, times.take(n - 1));
    let step = attempt_outcome(prev.1, max_attempts, window, key, times[n - 1]);
    assert(check_run(m, max_attempts, window, key, pre) == (prev.0.push(step.0), step.1));
    if n == 1 {
        assert(times.take(0) =~= Seq::<u64>::empty());
        assert(prev == (Seq::<bool>::empty(), m));
    } else {
        lemma_check_run_prefix(m, max_attempts, window, key, times, n - 1);
        assert(times[0] <= times[n - 1] <= times[times.len() - 1]);
        assert(elapsed(times[n - 1], times[0]) < window);
        assert(live_attempts(prev.1, times[n - 1], window).contains_key(key));
    }
}

/// Within one window, a key gets exactly `max_attempts` attempts: starting from a
/// key with no open window, of `max_attempts + 1` checks made less than `window`
/// after the first one, all but the last are allowed; and the next check made
/// once `window` has gone by since the first is allowed again.
pub proof fn lemma_window_caps_attempts(
    m: AttemptMap,
    max_attempts: u32,
    window: u64,
    key: Seq<char>,
    times: Seq<u64>,
    later: u64,
)
    requires
        max_attempts >= 1,
        times.len() == max_attempts + 1,
        nondecreasing(times),
        times[times.len() - 1] < times[0] + window,
        !live_attempts(m, times[0], window).contains_key(key),
        later >= times[0] + window,
    ensures
        ({
            let run = check_run(m, max_attempts, window, key, times);
            &&& run.0.len() == times.len()
            &&& forall|i: int| 0 <= i < max_attempts ==> run.0[i]
            &&& !run.0[max_attempts as int]
            &&& attempt_outcome(run.1, max_attempts, window, key, later).0
        }),
{
    lemma_check_run_prefix(m, max_attempts, window, key, times, times.len() as int);
    assert(times.take(times.len() as int) =~= times);
}

/// Checks of one key never change the answer given to another: after any run
/// of checks of `a`, a check of `b` made no earlier than the last of them gets
/// the answer it would have got without them.
pub proof fn lemma_keys_independent(
    m: AttemptMap,
    max_attempts: u32,
    window: u64,
    a: Seq<char>,
    times: Seq<u64>,
    b: Seq<char>,
    t: u64,
)
    requires
        a != b,
        forall|i: int| 0 <= i < times.len() ==> times[i] <= t,
    ensures
        attempt_outcome(check_run(m, max_attempts, window, a, times).1, max_attempts, window, b, t).0
            == attempt_outcome(m, max_attempts, window, b, t).0,
        live_attempts(check_run(m, max_attempts, window, a, times).1, t, window).contains_key(b)
            == live_attempts(m, t, window).contains_key(b),
        live_attempts(check_run(m, max_attempts, window, a, times).1, t, window).contains_key(b)
            ==> live_attempts(check_run(m, max_attempts, window, a, times).1, t, window)[b]
            == live_attempts(m, t, window)[b],
    decreases times.len(),
{
    if times.len() > 0 {
        let rest = times.drop_last();
        lemma_keys_independent(m, max_attempts, window, a, rest, b, t);
        let prev = check_run(m, max_attempts, window, a, rest).1;
        let next = check_run(m, max_attempts, window, a, times).1;
        let s = times.last();
        assert(s <= t);
        assert(next.contains_key(b) == (prev.contains_key(b) && elapsed(s, prev[b].1) < window));
        if next.contains_key(b) {
            assert(next[b] == prev[b]);
        }
        if prev.contains_key(b) {
            assert(elapsed(s, prev[b].1) <= elapsed(t, prev[b].1));
        }
        assert(live_attempts(next, t, window).contains_key(b) == live_attempts(
            prev,
            t,
            window,
        ).contains_key(b));
    }
}

struct AttemptRecord {
    key: String,
    count: u32,
    window_start: u64,
}

spec fn keys_unique(recs: Seq<AttemptRecord>) -> bool {
    forall|i: int, j: int|
        0 <= i < recs.len() && 0 <= j < recs.len() && i != j ==> recs[i].key@ != recs[j].key@
}

spec fn records_map(recs: Seq<AttemptRecord>) -> AttemptMap {
    Map::new(
        |k: Seq<char>| exists|i: int| 0 <= i < recs.len() && recs[i].key@ == k,
        |k: Seq<char>|
            {
                let i = choose|i: int| 0 <= i < recs.len() && recs[i].key@ == k;
                (recs[i].count, recs[i].window_start)
            },
    )
}

proof fn lemma_records_map_at(recs: Seq<AttemptRecord>, i: int)
    requires
        keys_unique(recs),
        0 <= i < recs.len(),
    ensures
        records_map(recs).contains_key(recs[i].key@),
        records_map(recs)[recs[i].key@] == (recs[i].count, recs[i].window_start),
{
    let k = recs[i].key@;
    assert(exists|j: int| 0 <= j < recs.len() && recs[j].key@ == k);
    let j = choose|j: int| 0 <= j < recs.len() && recs[j].key@ == k;
    assert(j == i);
}

/// Rate limiter over a sliding window: at most `max_attempts` attempts per key
/// within `window` time units of the first attempt of that window.
pub struct ConnectionLimiter {
    attempts: Vec<AttemptRecord>,
    max_attempts: u32,
    window: u64,
    started: Instant,
}

impl View for ConnectionLimiter {
    type V = AttemptMap;

    closed spec fn view(&self) -> AttemptMap {
        records_map(self.attempts@)
    }
}

impl ConnectionLimiter {
    /// Internal consistency: each key is tracked at most once.
    pub closed spec fn wf(&self) -> bool {
        keys_unique(self.attempts@)
    }

    /// The number of attempts allowed per window.
    pub closed spec fn limit(&self) -> u32 {
        self.max_attempts
    }

    /// The length of a window, in the time unit of the readings handed in.
    pub closed spec fn window(&self) -> u64 {
        self.window
    }

    /// A limiter that has seen no attempt yet.  `window` is in milliseconds where
    /// the limiter reads the clock itself (`can_attempt`).
    pub fn new(max_attempts: u32, window: u64) -> (r: ConnectionLimiter)
        ensures
            r.wf(),
            r@ == AttemptMap::empty(),
            r.limit() == max_attempts,
            r.window() == window,
    {
        let r = ConnectionLimiter { attempts: Vec::new(), max_attempts, window, started: clock_now() };
        assert(r@ =~= AttemptMap::empty());
        r
    }

    /// Drops every entry whose window has closed at `now`.
    fn evict(&mut self, now: u64)
        requires
            old(self).wf(),
        ensures
            final(self).wf(),
            final(self)@ == live_attempts(old(self)@, now, old(self).window),
            final(self).max_attempts == old(self).max_attempts,
            final(self).window == old(self).window,
    {
        let ghost recs = self.attempts@;
        let ghost window = self.window;
        let mut kept: Vec<AttemptRecord> = Vec::new();
        // origin[j] is the position in `recs` that kept[j] was copied from
        let ghost mut origin: Seq<int> = Seq::empty();
        let mut i: usize = 0;
        while i < self.attempts.len()
            invariant
                i <= recs.len(),
                self.attempts@ == recs,
                self.window == window,
                keys_unique(recs),
                keys_unique(kept@),
                origin.len() == kept.len(),
                forall|j: int|
                    0 <= j < kept.len() ==> 0 <= #[trigger] origin[j] < i && kept@[j]
                        == recs[origin[j]] && elapsed(now, recs[origin[j]].window_start) < window,
                forall|j1: int, j2: int|
                    0 <= j1 < j2 < kept.len() ==> #[trigger] origin[j1] < #[trigger] origin[j2],
                forall|m: int|
                    0 <= m < i && elapsed(now, #[trigger] recs[m].window_start) < window
                        ==> exists|j: int| 0 <= j < kept.len() && origin[j] == m,
            decreases recs.len() - i,
        {
            let start = self.attempts[i].window_start;
            let live = if now >= start {
                now - start < self.window
            } else {
                0 < self.window
            };
            if live {
                let rec = AttemptRecord {
                    key: self.attempts[i].key.clone(),
                    count: self.attempts[i].count,
                    window_start: start,
                };
                proof {
                    assert forall|j: int| 0 <= j < kept.len() implies kept@[j].key@ != rec.key@ by {
                        assert(origin[j] != i);
                    }
                }
                kept.push(rec);
                proof {
                    let origin0 = origin;
                    origin = origin.push(i as int);
                    assert forall|m: int|
                        0 <= m < i + 1 && elapsed(now, #[trigger] recs[m].window_start) < window
                        implies exists|j: int| 0 <= j < kept.len() && origin[j] == m by {
                        if m == i {
                            assert(origin[kept.len() - 1] == m);
                        } else {
                            let j = choose|j: int| 0 <= j < origin0.len() && origin0[j] == m;
                            assert(origin[j] == m);
                        }
                    }
                }
            }
            i = i + 1;
        }
        let ghost old_map = records_map(recs);
        proof {
            assert forall|k: Seq<char>| #[trigger]
                records_map(kept@).contains_key(k) implies live_attempts(
                old_map,
                now,
                window,
            ).contains_key(k) && records_map(kept@)[k] == live_attempts(old_map, now, window)[k] by {
                let j = choose|j: int| 0 <= j < kept.len() && kept@[j].key@ == k;
                lemma_records_map_at(kept@, j);
                lemma_records_map_at(recs, origin[j]);
            }
            assert forall|k: Seq<char>| #[trigger]
                live_attempts(old_map, now, window).contains_key(k) implies records_map(
                kept@,
            ).contains_key(k) by {
                let m = choose|m: int| 0 <= m < recs.len() && recs[m].key@ == k;
                lemma_records_map_at(recs, m);
                let j = choose|j: int| 0 <= j < kept.len() && origin[j] == m;
                assert(kept@[j].key@ == k);
            }
            assert(records_map(kept@) =~= live_attempts(old_map, now, window));
        }
        self.attempts = kept;
    }

    /// Position of the entry for `key`, if there is one.
    fn position(&self, key: &String) -> (r: Option<usize>)
        requires
            self.wf(),
        ensures
            match r {
                Some(i) => i < self.attempts@.len() && self.attempts@[i as int].key@ == key@,
                None => !self@.contains_key(key@),
            },
    {
        let mut i: usize = 0;
        while i < self.attempts.len()
            invariant
                i <= self.attempts@.len(),
                forall|m: int| 0 <= m < i ==> self.attempts@[m].key@ != key@,
            decreases self.attempts@.len() - i,
        {
            if self.attempts[i].key == *key {
                return Some(i);
            }
            i = i + 1;
        }
        None
    }

    /// Whether an attempt on `key` is allowed at `now`, recording it if so.
    /// Entries of every key whose window has closed are dropped first.  A key
    /// seen for the first time, or whose window closed, starts a new window
    /// with one attempt; a key that used up its attempts is refused, and the
    /// refusal is not counted.
    pub fn can_attempt_at(&mut self, key: &str, now: u64) -> (r: bool)
        requires
            old(self).wf(),
        ensures
            final(self).wf(),
            (r, final(self)@) == attempt_outcome(
                old(self)@,
                old(self).limit(),
                old(self).window(),
                key@,
                now,
            ),
            final(self).limit() == old(self).limit(),
            final(self).window() == old(self).window(),
    {
        let ghost m0 = self@;
        self.evict(now);
        let ghost live = self@;
        let owned: String = key.to_owned();
        match self.position(&owned) {
            None => {
                let ghost recs = self.attempts@;
                let rec = AttemptRecord { key: owned, count: 1, window_start: now };
                self.attempts.push(rec);
                proof {
                    let recs2 = self.attempts@;
                    assert(recs2[recs.len() as int] == rec);
                    assert forall|i: int, j: int|
                        0 <= i < recs2.len() && 0 <= j < recs2.len() && i != j implies recs2[i].key@
                        != recs2[j].key@ by {
                        if i < recs.len() {
                            lemma_records_map_at(recs, i);
                        }
                        if j < recs.len() {
                            lemma_records_map_at(recs, j);
                        }
                    }
                    assert forall|k: Seq<char>| #[trigger]
                        records_map(recs2).contains_key(k) implies live.insert(key@, (1u32, now)).contains_key(k)
                        && records_map(recs2)[k] == live.insert(key@, (1u32, now))[k] by {
                        let j = choose|j: int| 0 <= j < recs2.len() && recs2[j].key@ == k;
                        lemma_records_map_at(recs2, j);
                        if j < recs.len() {
                            lemma_records_map_at(recs, j);
                        }
                    }
                    assert forall|k: Seq<char>| #[trigger]
                        live.insert(key@, (1u32, now)).contains_key(k) implies records_map(
                        recs2,
                    ).contains_key(k) by {
                        if k == key@ {
                            lemma_records_map_at(recs2, recs.len() as int);
                        } else {
                            let j = choose|j: int| 0 <= j < recs.len() && recs[j].key@ == k;
                            assert(recs2[j] == recs[j]);
                        }
                    }
                    assert(self@ =~= live.insert(key@, (1u32, now)));
                }
                true
            },
            Some(i) => {
                proof {
                    lemma_records_map_at(self.attempts@, i as int);
                }
                let count = self.attempts[i].count;
                if count >= self.max_attempts {
                    false
                } else {
                    let ghost recs = self.attempts@;
                    self.attempts[i].count = count + 1;
                    proof {
                        let recs2 = self.attempts@;
                        let v = (((count + 1) as u32), recs[i as int].window_start);
                        assert(keys_unique(recs2)) by {
                            assert forall|a: int| 0 <= a < recs2.len() implies recs2[a].key@
                                == recs[a].key@ by {
                                if a != i {
                                    assert(recs2[a] == recs[a]);
                                }
                            }
                        }
                        assert forall|k: Seq<char>| #[trigger]
                            records_map(recs2).contains_key(k) implies live.insert(key@, v).contains_key(k)
                            && records_map(recs2)[k] == live.insert(key@, v)[k] by {
                            let j = choose|j: int| 0 <= j < recs2.len() && recs2[j].key@ == k;
                            lemma_records_map_at(recs2, j);
                            if j != i {
                                assert(recs2[j] == recs[j]);
                                lemma_records_map_at(recs, j);
                            }
                        }
                        assert forall|k: Seq<char>| #[trigger]
                            live.insert(key@, v).contains_key(k) implies records_map(
                            recs2,
                        ).contains_key(k) by {
                            let j = choose|j: int| 0 <= j < recs.len() && recs[j].key@ == k;
                            assert(recs2[j].key@ == recs[j].key@);
                        }
                        assert(self@ =~= live.insert(key@, v));
                    }
                    true
                }
            },
        }
    }

    /// Whether an attempt on `key` is allowed now, reading the time on the
    /// process's monotonic clock in milliseconds since the limiter was made.
    /// The outcome is that of `can_attempt_at` at some reading of the clock.
    pub fn can_attempt(&mut self, key: &str) -> (r: bool)
        requires
            old(self).wf(),
        ensures
            final(self).wf(),
            exists|now: u64|
                (r, final(self)@) == attempt_outcome(
                    old(self)@,
                    old(self).limit(),
                    old(self).window(),
                    key@,
                    now,
                ),
            final(self).limit() == old(self).limit(),
            final(self).window() == old(self).window(),
    {
        let now = elapsed_millis(&self.started);
        self.can_attempt_at(key, now)
    }
}

} // verus!
