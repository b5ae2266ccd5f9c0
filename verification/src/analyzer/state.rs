//! Per-edge, per-port and per-path counters, each with the timestamps of
//! its recent events (milliseconds on a monotonic clock).

use vstd::prelude::*;
use std::collections::VecDeque;

verus! {

/// A client or server error status: 4xx or 5xx.
pub open spec fn is_error_status(status: u16) -> bool {
    400 <= status <= 599
}

/// Length of the rolling window used for rates, in milliseconds.
pub const RATE_WINDOW_MS: u64 = 10_000;

/// Length of the rolling window used for rates, in seconds.
pub const RATE_WINDOW_SECS: u64 = 10;

/// How long an edge is kept after its last call, in milliseconds.
pub const EDGE_TTL_MS: u64 = 60_000;

/// `recent` without its leading events that are older than the rate window
/// ending at `now` (events at or after `now - RATE_WINDOW_MS` stay).
pub open spec fn evicted(recent: Seq<u64>, now: u64) -> Seq<u64>
    decreases recent.len(),
{
    if recent.len() > 0 && (recent[0] as int) < now - RATE_WINDOW_MS {
        evicted(recent.skip(1), now)
    } else {
        recent
    }
}

/// Event times listed oldest first.
pub open spec fn time_ordered(recent: Seq<u64>) -> bool {
    forall|i: int, j: int| 0 <= i <= j < recent.len() ==> recent[i] <= recent[j]
}

/// Of a time-ordered list of events, eviction keeps exactly those in the
/// rate window ending at `now`, and drops only older ones, from the front.
pub proof fn law_evicted_window(recent: Seq<u64>, now: u64)
    requires
        time_ordered(recent),
    ensures
        forall|t: u64|
            #[trigger] evicted(recent, now).contains(t) <==> (recent.contains(t) && t >= now
                - RATE_WINDOW_MS),
        evicted(recent, now).len() <= recent.len(),
        evicted(recent, now) == recent.skip(recent.len() - evicted(recent, now).len()),
    decreases recent.len(),
{
    if recent.len() > 0 && (recent[0] as int) < now - RATE_WINDOW_MS {
        let r1 = recent.skip(1);
        law_evicted_window(r1, now);
        assert forall|t: u64| #[trigger] recent.contains(t) && t >= now - RATE_WINDOW_MS
            implies r1.contains(t) by {
            let i = choose|i: int| 0 <= i < recent.len() && recent[i] == t;
            assert(i != 0);
            assert(r1[i - 1] == t);
        }
        assert forall|t: u64| #[trigger] r1.contains(t) implies recent.contains(t) by {
            let j = choose|j: int| 0 <= j < r1.len() && r1[j] == t;
            assert(recent[j + 1] == t);
        }
        let e = evicted(r1, now);
        assert(r1.skip(r1.len() - e.len()) =~= recent.skip(recent.len() - e.len()));
    } else {
        assert forall|t: u64| #[trigger] recent.contains(t) implies t >= now - RATE_WINDOW_MS by {
            let i = choose|i: int| 0 <= i < recent.len() && recent[i] == t;
            assert(recent[0] <= recent[i]);
        }
        assert(recent.skip(0) =~= recent);
    }
}

/// While time does not go back, event lists stay time-ordered: recording
/// an event no earlier than the recorded ones keeps the order, and so does
/// eviction at any time.
pub proof fn law_time_order_kept(recent: Seq<u64>, now: u64, later: u64)
    requires
        time_ordered(recent),
        forall|i: int| 0 <= i < recent.len() ==> recent[i] <= now,
    ensures
        time_ordered(recent.push(now)),
        time_ordered(evicted(recent, later)),
{
    let p = recent.push(now);
    assert forall|i: int, j: int| 0 <= i <= j < p.len() implies p[i] <= p[j] by {
        if j == recent.len() {
            if i < recent.len() {
                assert(p[i] == recent[i]);
            }
        } else {
            assert(p[i] == recent[i] && p[j] == recent[j]);
        }
    }
    law_evicted_window(recent, later);
    let e = evicted(recent, later);
    let d = recent.len() - e.len();
    assert forall|i: int, j: int| 0 <= i <= j < e.len() implies e[i] <= e[j] by {
        assert(e[i] == recent[d + i] && e[j] == recent[d + j]);
    }
}

/// Evicting again at the same time drops nothing more.
pub proof fn law_evict_idempotent(recent: Seq<u64>, now: u64)
    ensures
        evicted(evicted(recent, now), now) == evicted(recent, now),
    decreases recent.len(),
{
    if recent.len() > 0 && (recent[0] as int) < now - RATE_WINDOW_MS {
        law_evict_idempotent(recent.skip(1), now);
    }
}

/// Drops the leading events of `q` that fall before the rate window.
pub fn evict_before_window(q: &mut VecDeque<u64>, now: u64)
    ensures
        final(q)@ == evicted(old(q)@, now),
{
    while q.len() > 0 && now >= RATE_WINDOW_MS && q[0] < now - RATE_WINDOW_MS
        invariant
            evicted(q@, now) == evicted(old(q)@, now),
        decreases q@.len(),
    {
        let ghost before = q@;
        let _ = q.pop_front();
        assert(q@ =~= before.skip(1));
    }
}

/// Whole seconds from `since` to `now` (0 when `since` is later).
pub open spec fn elapsed_secs(since: u64, now: u64) -> u64 {
    if now >= since {
        ((now - since) / 1000) as u64
    } else {
        0
    }
}

pub fn secs_since(since: u64, now: u64) -> (s: u64)
    ensures
        s == elapsed_secs(since, now),
{
    if now >= since {
        (now - since) / 1000
    } else {
        0
    }
}

/// Calls seen on one edge between two services.
pub struct EdgeState {
    pub total_calls: u64,
    pub recent: VecDeque<u64>,
    pub last_seen: u64,
    pub first_seen: u64,
}

impl EdgeState {
    pub fn new(now: u64) -> (s: EdgeState)
        ensures
            s.total_calls == 0,
            s.recent@.len() == 0,
            s.last_seen == now,
            s.first_seen == now,
    {
        EdgeState { total_calls: 0, recent: VecDeque::new(), last_seen: now, first_seen: now }
    }

    pub fn record_call(&mut self, now: u64)
        requires
            old(self).total_calls < u64::MAX,
        ensures
            final(self).total_calls == old(self).total_calls + 1,
            final(self).last_seen == now,
            final(self).recent@ == old(self).recent@.push(now),
            final(self).first_seen == old(self).first_seen,
    {
        self.total_calls = self.total_calls + 1;
        self.last_seen = now;
        self.recent.push_back(now);
    }

    pub fn evict_old_events(&mut self, now: u64)
        ensures
            final(self).recent@ == evicted(old(self).recent@, now),
            final(self).total_calls == old(self).total_calls,
            final(self).last_seen == old(self).last_seen,
            final(self).first_seen == old(self).first_seen,
    {
        evict_before_window(&mut self.recent, now);
    }

    pub fn recent_calls(&self) -> (n: u64)
        ensures
            n == self.recent@.len(),
    {
        self.recent.len() as u64
    }
}

/// Inbound requests seen on one listening port.
pub struct PortState {
    pub pid: u32,
    pub total_requests: u64,
    pub recent: VecDeque<u64>,
    pub last_seen: u64,
    /// How many established connections currently have this port as local port
    pub active_connections: u64,
}

impl PortState {
    pub fn new(pid: u32, now: u64) -> (s: PortState)
        ensures
            s.pid == pid,
            s.total_requests == 0,
            s.recent@.len() == 0,
            s.last_seen == now,
            s.active_connections == 0,
    {
        PortState {
            pid,
            total_requests: 0,
            recent: VecDeque::new(),
            last_seen: now,
            active_connections: 0,
        }
    }

    pub fn record_request(&mut self, now: u64)
        requires
            old(self).total_requests < u64::MAX,
        ensures
            final(self).total_requests == old(self).total_requests + 1,
            final(self).last_seen == now,
            final(self).recent@ == old(self).recent@.push(now),
            final(self).pid == old(self).pid,
            final(self).active_connections == old(self).active_connections,
    {
        self.total_requests = self.total_requests + 1;
        self.last_seen = now;
        self.recent.push_back(now);
    }

    pub fn evict_old_events(&mut self, now: u64)
        ensures
            final(self).recent@ == evicted(old(self).recent@, now),
            final(self).total_requests == old(self).total_requests,
            final(self).last_seen == old(self).last_seen,
            final(self).pid == old(self).pid,
            final(self).active_connections == old(self).active_connections,
    {
        evict_before_window(&mut self.recent, now);
    }

    pub fn recent_requests(&self) -> (n: u64)
        ensures
            n == self.recent@.len(),
    {
        self.recent.len() as u64
    }
}

/// HTTP requests seen on one path through the tap.
pub struct PathState {
    pub total_calls: u64,
    pub recent: VecDeque<u64>,
    pub duration_sum_ms: u64,
    pub last_status: u16,
    /// Client and server errors: responses with a 4xx or 5xx status
    pub error_count: u64,
}

impl PathState {
    pub fn new() -> (s: PathState)
        ensures
            s.total_calls == 0,
            s.recent@.len() == 0,
            s.duration_sum_ms == 0,
            s.last_status == 0,
            s.error_count == 0,
    {
        PathState {
            total_calls: 0,
            recent: VecDeque::new(),
            duration_sum_ms: 0,
            last_status: 0,
            error_count: 0,
        }
    }

    pub fn record(&mut self, now: u64, status: u16, duration_ms: u64)
        requires
            old(self).total_calls < u64::MAX,
            old(self).error_count < u64::MAX,
            old(self).duration_sum_ms + duration_ms <= u64::MAX,
        ensures
            final(self).total_calls == old(self).total_calls + 1,
            final(self).duration_sum_ms == old(self).duration_sum_ms + duration_ms,
            final(self).last_status == status,
            final(self).error_count == old(self).error_count + if is_error_status(status) {
                1int
            } else {
                0int
            },
            final(self).recent@ == old(self).recent@.push(now),
    {
        self.total_calls = self.total_calls + 1;
        self.duration_sum_ms = self.duration_sum_ms + duration_ms;
        self.last_status = status;
        if 400 <= status && status <= 599 {
            self.error_count = self.error_count + 1;
        }
        self.recent.push_back(now);
    }

    pub fn evict_old(&mut self, now: u64)
        ensures
            final(self).recent@ == evicted(old(self).recent@, now),
            final(self).total_calls == old(self).total_calls,
            final(self).duration_sum_ms == old(self).duration_sum_ms,
            final(self).last_status == old(self).last_status,
            final(self).error_count == old(self).error_count,
    {
        evict_before_window(&mut self.recent, now);
    }

    /// Mean duration of the recorded requests (0 before the first).
    pub fn avg_duration_ms(&self) -> (a: u64)
        ensures
            a == if self.total_calls == 0 {
                0
            } else {
                self.duration_sum_ms / self.total_calls
            },
    {
        if self.total_calls == 0 {
            return 0;
        }
        self.duration_sum_ms / self.total_calls
    }
}


/// What an edge's counters hold.
pub struct EdgeModel {
    pub total_calls: u64,
    pub recent: Seq<u64>,
    pub last_seen: u64,
    pub first_seen: u64,
}

impl View for EdgeState {
    type V = EdgeModel;

    open spec fn view(&self) -> EdgeModel {
        EdgeModel {
            total_calls: self.total_calls,
            recent: self.recent@,
            last_seen: self.last_seen,
            first_seen: self.first_seen,
        }
    }
}

/// What a port's counters hold.
pub struct PortModel {
    pub pid: u32,
    pub total_requests: u64,
    pub recent: Seq<u64>,
    pub last_seen: u64,
    pub active_connections: u64,
}

impl View for PortState {
    type V = PortModel;

    open spec fn view(&self) -> PortModel {
        PortModel {
            pid: self.pid,
            total_requests: self.total_requests,
            recent: self.recent@,
            last_seen: self.last_seen,
            active_connections: self.active_connections,
        }
    }
}

/// What a path's counters hold.
pub struct PathModel {
    pub total_calls: u64,
    pub recent: Seq<u64>,
    pub duration_sum_ms: u64,
    pub last_status: u16,
    pub error_count: u64,
}

impl View for PathState {
    type V = PathModel;

    open spec fn view(&self) -> PathModel {
        PathModel {
            total_calls: self.total_calls,
            recent: self.recent@,
            duration_sum_ms: self.duration_sum_ms,
            last_status: self.last_status,
            error_count: self.error_count,
        }
    }
}

} // verus!
