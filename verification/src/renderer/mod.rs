//! The state of the live view between frames: selection, filter, the log
//! of live events, and the events a new snapshot brings.

pub mod display;

use vstd::prelude::*;
use crate::analyzer::graph::{Edge, GraphSnapshot, HttpEntry, PortStat, Service};
use crate::analyzer::{bounded_log, recorded_http, snapshot_matches, Analyzer, HTTP_LOG_MAX};
use crate::text::{append_str, dec_digits, string_from, u64_to_string};

verus! {

/// Most lines the live event log keeps.
pub const EVENT_LOG_MAX: usize = 200;

/// What a key press asks of the view.
#[derive(Debug, Clone, Copy, PartialEq, Eq, Structural)]
pub enum KeyAction {
    /// `q` or Esc
    Quit,
    /// `r`: forget the snapshot so the next one is drawn clean
    Refresh,
    /// `n`: toggle the Node/Bun-only view
    ToggleNodeOnly,
    /// Down arrow
    Down,
    /// Up arrow
    Up,
    /// Any other key
    Ignore,
}

/// What the view does after a key press.
#[derive(Debug, Clone, PartialEq, Eq)]
pub enum KeyOutcome {
    Quit,
    /// Keep going, logging the line given
    Log(String),
    Continue,
}

/// A live event that a new snapshot brings.
#[derive(Debug, Clone)]
pub enum LogEvent {
    /// A request seen by the tap, with the marker of its status class
    Http { entry: HttpEntry, marker: &'static str },
    /// New inbound requests on a port
    PortRequests { stat: PortStat, new_requests: u64 },
    /// New calls between two services, with their names
    EdgeCalls { edge: Edge, src: String, dst: String, new_calls: u64 },
}

/// The live view: which service is selected, whether only Node/Bun
/// services are shown, the event log, and the last snapshot.
pub struct ViewState {
    pub selected_idx: usize,
    pub node_only: bool,
    pub event_log: Vec<String>,
    pub last_snapshot: Option<GraphSnapshot>,
}

/// The action of a character key: `q` quits, `r` refreshes, `n` toggles
/// the Node/Bun-only view; other characters do nothing.
pub fn key_for_char(c: char) -> (a: KeyAction)
    ensures
        a == if c == 'q' {
            KeyAction::Quit
        } else if c == 'r' {
            KeyAction::Refresh
        } else if c == 'n' {
            KeyAction::ToggleNodeOnly
        } else {
            KeyAction::Ignore
        },
{
    if c == 'q' {
        KeyAction::Quit
    } else if c == 'r' {
        KeyAction::Refresh
    } else if c == 'n' {
        KeyAction::ToggleNodeOnly
    } else {
        KeyAction::Ignore
    }
}

/// The marker shown after an HTTP status.
pub open spec fn marker_of(status: u16) -> Seq<char> {
    if 200 <= status <= 299 {
        "\u{2713}"@
    } else if 300 <= status <= 399 {
        "\u{2192}"@
    } else if 400 <= status <= 499 {
        "!"@
    } else if 500 <= status <= 599 {
        "\u{2717}"@
    } else {
        "?"@
    }
}

pub fn status_marker(status: u16) -> (m: &'static str)
    ensures
        m@ == marker_of(status),
{
    if 200 <= status && status <= 299 {
        "\u{2713}"
    } else if 300 <= status && status <= 399 {
        "\u{2192}"
    } else if 400 <= status && status <= 499 {
        "!"
    } else if 500 <= status && status <= 599 {
        "\u{2717}"
    } else {
        "?"
    }
}

/// `a - b`, or 0 when `b` is larger.
pub open spec fn sat_sub(a: int, b: int) -> int {
    if a >= b {
        a - b
    } else {
        0
    }
}

/// The log after `line` is added: when it grows past `EVENT_LOG_MAX`
/// lines, its oldest line goes.
pub open spec fn log_after(log: Seq<String>, line: String) -> Seq<String> {
    let l = log.push(line);
    if l.len() > EVENT_LOG_MAX {
        l.skip(1)
    } else {
        l
    }
}

/// The line logged when the Node/Bun-only view is toggled to `on`.
pub open spec fn toggle_text(on: bool) -> Seq<char> {
    "Node/Bun-only view: "@ + if on {
        "ON"@
    } else {
        "OFF"@
    }
}

/// The last index the selection may take: the last service of the snapshot.
pub open spec fn selection_max(last: Option<GraphSnapshot>) -> int {
    match last {
        Some(s) => sat_sub(s.services@.len() as int, 1),
        None => 0,
    }
}

/// Total requests a port had in the previous snapshot (0 when unknown);
/// the last stat for the port counts.
pub open spec fn prev_port_total(stats: Seq<PortStat>, port: u16) -> u64
    decreases stats.len(),
{
    if stats.len() == 0 {
        0
    } else if stats.last().port == port {
        stats.last().total_requests
    } else {
        prev_port_total(stats.drop_last(), port)
    }
}

/// Total calls an edge had in the previous snapshot (0 when unknown); the
/// last row for the pair counts.
pub open spec fn prev_edge_total(edges: Seq<Edge>, src: u32, dst: u32) -> u64
    decreases edges.len(),
{
    if edges.len() == 0 {
        0
    } else if edges.last().src_pid == src && edges.last().dst_pid == dst {
        edges.last().total_calls
    } else {
        prev_edge_total(edges.drop_last(), src, dst)
    }
}

/// The name shown for a pid: that of the last service with it, else
/// "pid:" and the number.
pub open spec fn pid_name(svcs: Seq<Service>, pid: u32) -> Seq<char> {
    let i = crate::analyzer::graph::service_index(svcs, pid);
    if i >= 0 {
        svcs[i].name@
    } else {
        "pid:"@ + dec_digits(pid as nat)
    }
}

/// Two log entries record the same request.
pub open spec fn same_entry(a: HttpEntry, b: HttpEntry) -> bool {
    &&& a.method@ == b.method@
    &&& a.path@ == b.path@
    &&& a.status == b.status
    &&& a.duration_ms == b.duration_ms
    &&& a.timestamp == b.timestamp
}

/// The first `j` entries of `cur` are the last `j` entries of `prev`.
pub open spec fn overlaps(prev: Seq<HttpEntry>, cur: Seq<HttpEntry>, j: int) -> bool {
    &&& 0 <= j <= prev.len()
    &&& j <= cur.len()
    &&& forall|k: int| 0 <= k < j ==> same_entry(#[trigger] cur[k], prev[prev.len() - j + k])
}

/// The longest such overlap of at most `j` entries.
pub open spec fn overlap_upto(prev: Seq<HttpEntry>, cur: Seq<HttpEntry>, j: int) -> int
    decreases j,
{
    if j <= 0 {
        0
    } else if overlaps(prev, cur, j) {
        j
    } else {
        overlap_upto(prev, cur, j - 1)
    }
}

pub open spec fn min_len(prev: Seq<HttpEntry>, cur: Seq<HttpEntry>) -> int {
    if prev.len() <= cur.len() {
        prev.len() as int
    } else {
        cur.len() as int
    }
}

/// The requests of the tap log that the previous snapshot did not have:
/// those after the longest run of entries that the log shares with the end
/// of the previous log. While the log grows that run is the whole previous
/// log; once the log is full, old entries leave its front and the run is
/// shorter. None without a previous snapshot.
pub open spec fn new_http(prev: Option<GraphSnapshot>, snap: GraphSnapshot) -> Seq<HttpEntry> {
    match prev {
        Some(p) => snap.http_log@.skip(
            overlap_upto(p.http_log@, snap.http_log@, min_len(p.http_log@, snap.http_log@)),
        ),
        None => seq![],
    }
}

proof fn lemma_overlap_upto_bound(prev: Seq<HttpEntry>, cur: Seq<HttpEntry>, j: int)
    requires
        j <= min_len(prev, cur),
    ensures
        0 <= overlap_upto(prev, cur, j),
        j >= 0 ==> overlap_upto(prev, cur, j) <= j,
        overlap_upto(prev, cur, j) <= cur.len(),
    decreases j,
{
    if j > 0 && !overlaps(prev, cur, j) {
        lemma_overlap_upto_bound(prev, cur, j - 1);
    }
}

fn entries_same(a: &HttpEntry, b: &HttpEntry) -> (r: bool)
    ensures
        r == same_entry(*a, *b),
{
    a.method == b.method && a.path == b.path && a.status == b.status && a.duration_ms
        == b.duration_ms && a.timestamp == b.timestamp
}

/// How many entries at the front of `cur` repeat the end of `prev`.
fn log_overlap(prev: &Vec<HttpEntry>, cur: &Vec<HttpEntry>) -> (n: usize)
    ensures
        n == overlap_upto(prev@, cur@, min_len(prev@, cur@)),
        n <= cur@.len(),
{
    let m = if prev.len() <= cur.len() {
        prev.len()
    } else {
        cur.len()
    };
    proof {
        lemma_overlap_upto_bound(prev@, cur@, m as int);
    }
    let mut j = m;
    while j > 0
        invariant
            j <= m,
            m == min_len(prev@, cur@),
            m <= prev@.len(),
            m <= cur@.len(),
            overlap_upto(prev@, cur@, m as int) == overlap_upto(prev@, cur@, j as int),
        decreases j,
    {
        let off = prev.len() - j;
        let mut k: usize = 0;
        let mut same = true;
        while k < j && same
            invariant
                k <= j,
                j <= cur@.len(),
                off + j == prev@.len(),
                prev@.len() == prev.len(),
                forall|t: int| 0 <= t < k ==> same_entry(#[trigger] cur@[t], prev@[off + t]),
                !same ==> k < j && !same_entry(cur@[k as int], prev@[off + k]),
            decreases j - k + if same {
                1int
            } else {
                0int
            },
        {
            if entries_same(&cur[k], &prev[off + k]) {
                k = k + 1;
            } else {
                same = false;
            }
        }
        if k == j {
            assert(overlaps(prev@, cur@, j as int));
            return j;
        }
        assert(!same_entry(cur@[k as int], prev@[off + k]));
        assert(!overlaps(prev@, cur@, j as int));
        j = j - 1;
    }
    0
}

pub open spec fn prev_port_stats(prev: Option<GraphSnapshot>) -> Seq<PortStat> {
    match prev {
        Some(p) => p.port_stats@,
        None => seq![],
    }
}

pub open spec fn prev_edges(prev: Option<GraphSnapshot>) -> Seq<Edge> {
    match prev {
        Some(p) => p.edges@,
        None => seq![],
    }
}

/// The ports of `stats` with new requests, with how many: `(index, count)`.
pub open spec fn port_deltas(stats: Seq<PortStat>, prev: Seq<PortStat>) -> Seq<(int, u64)>
    decreases stats.len(),
{
    if stats.len() == 0 {
        seq![]
    } else {
        let rest = port_deltas(stats.drop_last(), prev);
        let s = stats.last();
        let d = sat_sub(s.total_requests as int, prev_port_total(prev, s.port) as int);
        if d == 0 {
            rest
        } else {
            rest.push((stats.len() - 1, d as u64))
        }
    }
}

/// The edges of `edges` with new calls, with how many: `(index, count)`.
pub open spec fn edge_deltas(edges: Seq<Edge>, prev: Seq<Edge>) -> Seq<(int, u64)>
    decreases edges.len(),
{
    if edges.len() == 0 {
        seq![]
    } else {
        let rest = edge_deltas(edges.drop_last(), prev);
        let e = edges.last();
        let d = sat_sub(e.total_calls as int, prev_edge_total(prev, e.src_pid, e.dst_pid) as int);
        if d == 0 {
            rest
        } else {
            rest.push((edges.len() - 1, d as u64))
        }
    }
}

/// `evs` are the live events that `snap` brings after `prev`: its new tap
/// requests, then its ports with new requests, then its edges with new calls.
pub open spec fn events_of(evs: Seq<LogEvent>, prev: Option<GraphSnapshot>, snap: GraphSnapshot) -> bool {
    let h = new_http(prev, snap);
    let pd = port_deltas(snap.port_stats@, prev_port_stats(prev));
    let ed = edge_deltas(snap.edges@, prev_edges(prev));
    &&& evs.len() == h.len() + pd.len() + ed.len()
    &&& forall|i: int|
        0 <= i < h.len() ==> match #[trigger] evs[i] {
            LogEvent::Http { entry, marker } => entry == h[i] && marker@ == marker_of(h[i].status),
            _ => false,
        }
    &&& forall|j: int|
        0 <= j < pd.len() ==> match #[trigger] evs[h.len() + j] {
            LogEvent::PortRequests { stat, new_requests } => stat == snap.port_stats@[pd[j].0]
                && new_requests == pd[j].1,
            _ => false,
        }
    &&& forall|j: int|
        0 <= j < ed.len() ==> match #[trigger] evs[h.len() + pd.len() + j] {
            LogEvent::EdgeCalls { edge, src, dst, new_calls } => {
                let e = snap.edges@[ed[j].0];
                &&& edge == e
                &&& src@ == pid_name(snap.services@, e.src_pid)
                &&& dst@ == pid_name(snap.services@, e.dst_pid)
                &&& new_calls == ed[j].1
            },
            _ => false,
        }
}

impl PortStat {
    /// A copy of this stat.
    pub fn duplicate(&self) -> (r: PortStat)
        ensures
            r == *self,
    {
        PortStat {
            port: self.port,
            pid: self.pid,
            service_name: self.service_name.clone(),
            total_requests: self.total_requests,
            recent_requests: self.recent_requests,
            window_secs: self.window_secs,
            active_connections: self.active_connections,
            idle_secs: self.idle_secs,
        }
    }
}

fn prev_port_total_of(stats: &Vec<PortStat>, port: u16) -> (t: u64)
    ensures
        t == prev_port_total(stats@, port),
{
    let mut j = stats.len();
    assert(stats@.take(j as int) =~= stats@);
    while j > 0
        invariant
            j <= stats@.len(),
            prev_port_total(stats@, port) == prev_port_total(stats@.take(j as int), port),
        decreases j,
    {
        assert(stats@.take(j as int).drop_last() =~= stats@.take(j - 1));
        if stats[j - 1].port == port {
            return stats[j - 1].total_requests;
        }
        j = j - 1;
    }
    0
}

fn prev_edge_total_of(edges: &Vec<Edge>, src: u32, dst: u32) -> (t: u64)
    ensures
        t == prev_edge_total(edges@, src, dst),
{
    let mut j = edges.len();
    assert(edges@.take(j as int) =~= edges@);
    while j > 0
        invariant
            j <= edges@.len(),
            prev_edge_total(edges@, src, dst) == prev_edge_total(edges@.take(j as int), src, dst),
        decreases j,
    {
        assert(edges@.take(j as int).drop_last() =~= edges@.take(j - 1));
        if edges[j - 1].src_pid == src && edges[j - 1].dst_pid == dst {
            return edges[j - 1].total_calls;
        }
        j = j - 1;
    }
    0
}

fn pid_name_of(svcs: &Vec<Service>, pid: u32) -> (s: String)
    ensures
        s@ == pid_name(svcs@, pid),
{
    let mut j = svcs.len();
    assert(svcs@.take(j as int) =~= svcs@);
    while j > 0
        invariant
            j <= svcs@.len(),
            crate::analyzer::graph::service_index(svcs@, pid)
                == crate::analyzer::graph::service_index(svcs@.take(j as int), pid),
        decreases j,
    {
        assert(svcs@.take(j as int).drop_last() =~= svcs@.take(j - 1));
        if svcs[j - 1].pid == pid {
            return svcs[j - 1].name.clone();
        }
        j = j - 1;
    }
    let mut s = string_from("pid:");
    let d = u64_to_string(pid as u64);
    append_str(&mut s, d.as_str());
    s
}

/// The live events that `snap` brings after `prev`.
pub fn snapshot_events(prev: &Option<GraphSnapshot>, snap: &GraphSnapshot) -> (evs: Vec<LogEvent>)
    ensures
        events_of(evs@, *prev, *snap),
{
    let mut evs: Vec<LogEvent> = Vec::new();
    let ghost h = new_http(*prev, *snap);
    // requests the tap saw since the previous snapshot
    match prev {
        Some(p) => {
            let start = log_overlap(&p.http_log, &snap.http_log);
            {
                let mut i = start;
                while i < snap.http_log.len()
                    invariant
                        start <= i <= snap.http_log@.len(),
                        h == snap.http_log@.skip(start as int),
                        evs@.len() == i - start,
                        forall|k: int|
                            0 <= k < evs@.len() ==> match #[trigger] evs@[k] {
                                LogEvent::Http { entry, marker } => entry == h[k] && marker@
                                    == marker_of(h[k].status),
                                _ => false,
                            },
                    decreases snap.http_log.len() - i,
                {
                    let entry = snap.http_log[i].duplicate();
                    let marker = status_marker(entry.status);
                    evs.push(LogEvent::Http { entry, marker });
                    i = i + 1;
                }
            }
        },
        None => {},
    }
    assert(evs@.len() == h.len());
    // ports with new inbound requests
    let prev_stats: Vec<PortStat> = match prev {
        Some(p) => {
            let mut v: Vec<PortStat> = Vec::new();
            let mut k: usize = 0;
            while k < p.port_stats.len()
                invariant
                    k <= p.port_stats@.len(),
                    v@ == p.port_stats@.take(k as int),
                decreases p.port_stats.len() - k,
            {
                v.push(p.port_stats[k].duplicate());
                k = k + 1;
                assert(v@ =~= p.port_stats@.take(k as int));
            }
            assert(p.port_stats@.take(k as int) =~= p.port_stats@);
            v
        },
        None => Vec::new(),
    };
    assert(prev_stats@ =~= prev_port_stats(*prev));
    let ghost pd = port_deltas(snap.port_stats@, prev_port_stats(*prev));
    let ghost base = evs@;
    let mut i: usize = 0;
    while i < snap.port_stats.len()
        invariant
            i <= snap.port_stats@.len(),
            prev_stats@ == prev_port_stats(*prev),
            base.len() == h.len(),
            evs@.len() == h.len() + port_deltas(snap.port_stats@.take(i as int), prev_stats@).len(),
            forall|k: int| 0 <= k < h.len() ==> #[trigger] evs@[k] == base[k],
            forall|j: int|
                0 <= j < port_deltas(snap.port_stats@.take(i as int), prev_stats@).len() ==> match
                    #[trigger] evs@[h.len() + j] {
                    LogEvent::PortRequests { stat, new_requests } => {
                        let t = port_deltas(snap.port_stats@.take(i as int), prev_stats@)[j];
                        stat == snap.port_stats@[t.0] && new_requests == t.1 && 0 <= t.0 < i
                    },
                    _ => false,
                },
        decreases snap.port_stats.len() - i,
    {
        let ghost pre = snap.port_stats@.take(i as int);
        let ghost next = snap.port_stats@.take(i + 1);
        assert(next.drop_last() =~= pre);
        let ps = &snap.port_stats[i];
        let before = prev_port_total_of(&prev_stats, ps.port);
        let new_reqs: u64 = if ps.total_requests >= before {
            ps.total_requests - before
        } else {
            0
        };
        let ghost before_evs = evs@;
        if new_reqs != 0 {
            evs.push(LogEvent::PortRequests { stat: ps.duplicate(), new_requests: new_reqs });
            proof {
                let d_next = port_deltas(next, prev_stats@);
                let d_pre = port_deltas(pre, prev_stats@);
                assert(d_next == d_pre.push((i as int, new_reqs)));
                assert forall|j: int| 0 <= j < d_next.len() implies match #[trigger] evs@[h.len()
                    + j] {
                    LogEvent::PortRequests { stat, new_requests } => {
                        let t = d_next[j];
                        stat == snap.port_stats@[t.0] && new_requests == t.1 && 0 <= t.0 < i + 1
                    },
                    _ => false,
                } by {
                    if j < d_pre.len() {
                        assert(evs@[h.len() + j] == before_evs[h.len() + j]);
                    }
                }
            }
        }
        i = i + 1;
    }
    assert(snap.port_stats@.take(i as int) =~= snap.port_stats@);
    // edges with new calls
    let prev_edge_rows: Vec<Edge> = match prev {
        Some(p) => {
            let mut v: Vec<Edge> = Vec::new();
            let mut k: usize = 0;
            while k < p.edges.len()
                invariant
                    k <= p.edges@.len(),
                    v@ == p.edges@.take(k as int),
                decreases p.edges.len() - k,
            {
                v.push(p.edges[k]);
                k = k + 1;
                assert(v@ =~= p.edges@.take(k as int));
            }
            assert(p.edges@.take(k as int) =~= p.edges@);
            v
        },
        None => Vec::new(),
    };
    assert(prev_edge_rows@ =~= prev_edges(*prev));
    let ghost base2 = evs@;
    let ghost hp = h.len() + pd.len();
    let mut i: usize = 0;
    while i < snap.edges.len()
        invariant
            i <= snap.edges@.len(),
            prev_edge_rows@ == prev_edges(*prev),
            base2.len() == hp,
            hp == h.len() + pd.len(),
            evs@.len() == hp + edge_deltas(snap.edges@.take(i as int), prev_edge_rows@).len(),
            forall|k: int| 0 <= k < hp ==> #[trigger] evs@[k] == base2[k],
            forall|j: int|
                0 <= j < edge_deltas(snap.edges@.take(i as int), prev_edge_rows@).len() ==> match
                    #[trigger] evs@[hp + j] {
                    LogEvent::EdgeCalls { edge, src, dst, new_calls } => {
                        let t = edge_deltas(snap.edges@.take(i as int), prev_edge_rows@)[j];
                        let e = snap.edges@[t.0];
                        &&& edge == e
                        &&& src@ == pid_name(snap.services@, e.src_pid)
                        &&& dst@ == pid_name(snap.services@, e.dst_pid)
                        &&& new_calls == t.1
                        &&& 0 <= t.0 < i
                    },
                    _ => false,
                },
        decreases snap.edges.len() - i,
    {
        let ghost pre = snap.edges@.take(i as int);
        let ghost next = snap.edges@.take(i + 1);
        assert(next.drop_last() =~= pre);
        let e = snap.edges[i];
        let before = prev_edge_total_of(&prev_edge_rows, e.src_pid, e.dst_pid);
        let new_calls: u64 = if e.total_calls >= before {
            e.total_calls - before
        } else {
            0
        };
        let ghost before_evs = evs@;
        if new_calls != 0 {
            let src = pid_name_of(&snap.services, e.src_pid);
            let dst = pid_name_of(&snap.services, e.dst_pid);
            evs.push(LogEvent::EdgeCalls { edge: e, src, dst, new_calls });
            proof {
                let d_next = edge_deltas(next, prev_edge_rows@);
                let d_pre = edge_deltas(pre, prev_edge_rows@);
                assert(d_next == d_pre.push((i as int, new_calls)));
                assert forall|j: int| 0 <= j < d_next.len() implies match #[trigger] evs@[hp
                    + j] {
                    LogEvent::EdgeCalls { edge, src, dst, new_calls } => {
                        let t = d_next[j];
                        let e = snap.edges@[t.0];
                        &&& edge == e
                        &&& src@ == pid_name(snap.services@, e.src_pid)
                        &&& dst@ == pid_name(snap.services@, e.dst_pid)
                        &&& new_calls == t.1
                        &&& 0 <= t.0 < i + 1
                    },
                    _ => false,
                } by {
                    if j < d_pre.len() {
                        assert(evs@[hp + j] == before_evs[hp + j]);
                    }
                }
            }
        }
        i = i + 1;
    }
    assert(snap.edges@.take(i as int) =~= snap.edges@);
    evs
}

/// `b` and `out` are the view and the outcome after `key` is pressed in
/// view `a`: `q` quits, `r` forgets the snapshot, `n` flips the filter and
/// logs its new setting, the arrows move the selection within the list of
/// services, and other keys change nothing.
pub open spec fn key_handled(a: ViewState, key: KeyAction, b: ViewState, out: KeyOutcome) -> bool {
    &&& b.event_log == a.event_log
    &&& match key {
        KeyAction::Quit => out == KeyOutcome::Quit && b == a,
        KeyAction::Refresh => {
            &&& out == KeyOutcome::Continue
            &&& b.last_snapshot is None
            &&& b.selected_idx == a.selected_idx
            &&& b.node_only == a.node_only
        },
        KeyAction::ToggleNodeOnly => {
            &&& b.node_only == !a.node_only
            &&& out matches KeyOutcome::Log(line) && line@ == toggle_text(b.node_only)
            &&& b.selected_idx == a.selected_idx
            &&& b.last_snapshot == a.last_snapshot
        },
        KeyAction::Down => {
            let next = a.selected_idx + 1;
            let max = selection_max(a.last_snapshot);
            &&& out == KeyOutcome::Continue
            &&& b.selected_idx == if next < max {
                next
            } else {
                max
            }
            &&& b.node_only == a.node_only
            &&& b.last_snapshot == a.last_snapshot
        },
        KeyAction::Up => {
            &&& out == KeyOutcome::Continue
            &&& b.selected_idx == sat_sub(a.selected_idx as int, 1)
            &&& b.node_only == a.node_only
            &&& b.last_snapshot == a.last_snapshot
        },
        KeyAction::Ignore => out == KeyOutcome::Continue && b == a,
    }
}

/// Pressing `n` twice gives back the view as it was: the same filter,
/// selection, snapshot and log.
pub proof fn law_toggle_twice(v0: ViewState, v1: ViewState, v2: ViewState, o1: KeyOutcome, o2: KeyOutcome)
    requires
        key_handled(v0, KeyAction::ToggleNodeOnly, v1, o1),
        key_handled(v1, KeyAction::ToggleNodeOnly, v2, o2),
    ensures
        v2.node_only == v0.node_only,
        v2.selected_idx == v0.selected_idx,
        v2.last_snapshot == v0.last_snapshot,
        v2.event_log == v0.event_log,
{
}

/// The down arrow never moves the selection past the last service.
pub proof fn law_down_stays_in_list(v0: ViewState, v1: ViewState, o: KeyOutcome)
    requires
        key_handled(v0, KeyAction::Down, v1, o),
    ensures
        v1.selected_idx <= selection_max(v1.last_snapshot),
{
}

/// The up arrow right after the down arrow gives back the selection, unless
/// the selection was already at the last service.
pub proof fn law_down_then_up(
    v0: ViewState,
    v1: ViewState,
    v2: ViewState,
    o1: KeyOutcome,
    o2: KeyOutcome,
)
    requires
        key_handled(v0, KeyAction::Down, v1, o1),
        key_handled(v1, KeyAction::Up, v2, o2),
        v0.selected_idx < selection_max(v0.last_snapshot),
    ensures
        v2.selected_idx == v0.selected_idx,
        v2.last_snapshot == v0.last_snapshot,
{
}

/// The event log never holds more than `EVENT_LOG_MAX` lines, and the
/// line just added is its last.
pub proof fn law_event_log_bounded(log: Seq<String>, line: String)
    requires
        log.len() <= EVENT_LOG_MAX,
    ensures
        log_after(log, line).len() <= EVENT_LOG_MAX,
        log_after(log, line).last() == line,
{
}

/// A request the tap reports reaches the live event log: after it is
/// recorded, the events of the next snapshot begin with it. Once the log is
/// full this needs the request to differ from the one logged last; a full
/// log of one request repeated, followed by that request again, cannot be
/// told apart from no change.
pub proof fn law_request_reaches_event_log(
    a: Analyzer,
    b: Analyzer,
    entry: HttpEntry,
    now: u64,
    s1: GraphSnapshot,
    t1: u64,
    s2: GraphSnapshot,
    t2: u64,
    evs: Seq<LogEvent>,
)
    requires
        a.http_log().len() <= HTTP_LOG_MAX,
        a.http_log().len() == HTTP_LOG_MAX ==> !same_entry(entry, a.http_log().last()),
        snapshot_matches(s1, a, t1),
        recorded_http(a, b, entry, now),
        snapshot_matches(s2, b, t2),
        events_of(evs, Some(s1), s2),
    ensures
        new_http(Some(s1), s2) == seq![entry],
        evs.len() >= 1,
        evs[0] matches LogEvent::Http { entry: e, marker } && e == entry && marker@ == marker_of(
            entry.status,
        ),
{
    let old_log = a.http_log();
    let n = old_log.len();
    let full = old_log.push(entry);
    let cur = s2.http_log@;
    assert(s1.http_log@ == old_log);
    assert(cur == bounded_log(full));
    if n < HTTP_LOG_MAX {
        assert(cur == full);
        assert(min_len(old_log, cur) == n);
        assert(overlaps(old_log, cur, n as int)) by {
            assert forall|k: int| 0 <= k < n implies same_entry(#[trigger] cur[k], old_log[n - n
                + k]) by {
                assert(cur[k] == old_log[k]);
            }
        }
        if n > 0 {
            assert(overlap_upto(old_log, cur, n as int) == n);
        }
        assert(cur.skip(n as int) =~= seq![entry]);
    } else {
        assert(cur == full.skip(1));
        let m = n - 1;
        assert(min_len(old_log, cur) == n);
        assert(cur[m] == entry);
        assert(!overlaps(old_log, cur, n as int)) by {
            assert(!same_entry(cur[m], old_log[n - n + m]));
        }
        assert(overlaps(old_log, cur, m)) by {
            assert forall|k: int| 0 <= k < m implies same_entry(#[trigger] cur[k], old_log[n - m
                + k]) by {
                assert(cur[k] == old_log[k + 1]);
            }
        }
        assert(overlap_upto(old_log, cur, n as int) == overlap_upto(old_log, cur, m));
        assert(overlap_upto(old_log, cur, m) == m);
        assert(cur.skip(m) =~= seq![entry]);
    }
}

/// Edge `e` joins service `s` to service `d`.
pub open spec fn joins(e: Edge, s: u32, d: u32) -> bool {
    e.src_pid == s && e.dst_pid == d
}

/// The previous total of an edge is that of the last edge of the previous
/// snapshot joining the same two services, in the same direction, or 0 when
/// none does; edges with another source or destination play no part.
pub proof fn law_prev_edge_total(prev: Seq<Edge>, s: u32, d: u32)
    ensures
        (forall|i: int| 0 <= i < prev.len() ==> !joins(#[trigger] prev[i], s, d))
            ==> prev_edge_total(prev, s, d) == 0,
        forall|i: int|
            0 <= i < prev.len() && joins(#[trigger] prev[i], s, d) && (forall|j: int|
                i < j < prev.len() ==> !joins(#[trigger] prev[j], s, d)) ==> prev_edge_total(
                prev,
                s,
                d,
            ) == prev[i].total_calls,
    decreases prev.len(),
{
    if prev.len() > 0 {
        let rest = prev.drop_last();
        law_prev_edge_total(rest, s, d);
        if !joins(prev.last(), s, d) {
            assert forall|i: int| 0 <= i < rest.len() && !joins(#[trigger] rest[i], s, d)
                implies !joins(prev[i], s, d) by {}
            assert forall|i: int|
                0 <= i < prev.len() && joins(#[trigger] prev[i], s, d) && (forall|j: int|
                    i < j < prev.len() ==> !joins(#[trigger] prev[j], s, d)) implies prev_edge_total(
                prev,
                s,
                d,
            ) == prev[i].total_calls by {
                assert(i != prev.len() - 1);
                assert(rest[i] == prev[i]);
                assert forall|j: int| i < j < rest.len() implies !joins(#[trigger] rest[j], s, d) by {
                    assert(rest[j] == prev[j]);
                }
            }
            if forall|i: int| 0 <= i < prev.len() ==> !joins(#[trigger] prev[i], s, d) {
                assert forall|i: int| 0 <= i < rest.len() implies !joins(#[trigger] rest[i], s, d) by {
                    assert(rest[i] == prev[i]);
                }
            }
        } else {
            assert forall|i: int|
                0 <= i < prev.len() && joins(#[trigger] prev[i], s, d) && (forall|j: int|
                    i < j < prev.len() ==> !joins(#[trigger] prev[j], s, d)) implies i == prev.len()
                - 1 by {
                if i < prev.len() - 1 {
                    assert(joins(prev[prev.len() - 1], s, d));
                }
            }
        }
    }
}

proof fn lemma_edge_deltas(edges: Seq<Edge>, prev: Seq<Edge>)
    ensures
        forall|j: int|
            0 <= j < edge_deltas(edges, prev).len() ==> {
                let t = #[trigger] edge_deltas(edges, prev)[j];
                &&& 0 <= t.0 < edges.len()
                &&& t.1 == sat_sub(
                    edges[t.0].total_calls as int,
                    prev_edge_total(prev, edges[t.0].src_pid, edges[t.0].dst_pid) as int,
                )
                &&& t.1 > 0
            },
    decreases edges.len(),
{
    if edges.len() > 0 {
        let rest = edges.drop_last();
        lemma_edge_deltas(rest, prev);
        assert forall|j: int| 0 <= j < edge_deltas(rest, prev).len() implies (#[trigger] edge_deltas(
            rest,
            prev,
        )[j]).0 < rest.len() && rest[edge_deltas(rest, prev)[j].0] == edges[edge_deltas(
            rest,
            prev,
        )[j].0] by {}
    }
}

/// The calls logged for an edge are its total minus the total that the
/// previous snapshot had for the same pair of services (the last edge of
/// that pair), or its whole total when the previous snapshot had no edge
/// for that pair.
pub proof fn law_edge_event_counts(evs: Seq<LogEvent>, prev: GraphSnapshot, snap: GraphSnapshot)
    requires
        events_of(evs, Some(prev), snap),
    ensures
        ({
            let base = new_http(Some(prev), snap).len() + port_deltas(
                snap.port_stats@,
                prev.port_stats@,
            ).len();
            let pe = prev.edges@;
            forall|j: int|
                base <= j < evs.len() ==> match #[trigger] evs[j] {
                    LogEvent::EdgeCalls { edge, new_calls, .. } => {
                        &&& (forall|i: int|
                            0 <= i < pe.len() ==> !joins(#[trigger] pe[i], edge.src_pid, edge.dst_pid))
                            ==> new_calls == edge.total_calls
                        &&& forall|i: int|
                            0 <= i < pe.len() && joins(#[trigger] pe[i], edge.src_pid, edge.dst_pid)
                                && (forall|k: int|
                                i < k < pe.len() ==> !joins(
                                    #[trigger] pe[k],
                                    edge.src_pid,
                                    edge.dst_pid,
                                )) ==> new_calls == sat_sub(
                                edge.total_calls as int,
                                pe[i].total_calls as int,
                            )
                    },
                    _ => false,
                }
        }),
{
    let h = new_http(Some(prev), snap);
    let pd = port_deltas(snap.port_stats@, prev.port_stats@);
    let ed = edge_deltas(snap.edges@, prev.edges@);
    let base = h.len() + pd.len();
    lemma_edge_deltas(snap.edges@, prev.edges@);
    assert forall|j: int| base <= j < evs.len() implies match #[trigger] evs[j] {
        LogEvent::EdgeCalls { edge, new_calls, .. } => {
            &&& (forall|i: int|
                0 <= i < prev.edges@.len() ==> !joins(
                    #[trigger] prev.edges@[i],
                    edge.src_pid,
                    edge.dst_pid,
                )) ==> new_calls == edge.total_calls
            &&& forall|i: int|
                0 <= i < prev.edges@.len() && joins(
                    #[trigger] prev.edges@[i],
                    edge.src_pid,
                    edge.dst_pid,
                ) && (forall|k: int|
                    i < k < prev.edges@.len() ==> !joins(
                        #[trigger] prev.edges@[k],
                        edge.src_pid,
                        edge.dst_pid,
                    )) ==> new_calls == sat_sub(
                    edge.total_calls as int,
                    prev.edges@[i].total_calls as int,
                )
        },
        _ => false,
    } by {
        let jj = j - base;
        assert(evs[base + jj] == evs[j]);
        let t = ed[jj];
        let e = snap.edges@[t.0];
        law_prev_edge_total(prev.edges@, e.src_pid, e.dst_pid);
    }
}

impl ViewState {
    pub fn new(node_only: bool) -> (v: Self)
        ensures
            v.selected_idx == 0,
            v.node_only == node_only,
            v.event_log@.len() == 0,
            v.last_snapshot is None,
    {
        ViewState { selected_idx: 0, node_only, event_log: Vec::new(), last_snapshot: None }
    }

    /// Adds a line to the event log, dropping the oldest when it grows past
    /// `EVENT_LOG_MAX` lines.
    pub fn log_line(&mut self, line: String)
        ensures
            final(self).event_log@ == log_after(old(self).event_log@, line),
            final(self).selected_idx == old(self).selected_idx,
            final(self).node_only == old(self).node_only,
            final(self).last_snapshot == old(self).last_snapshot,
    {
        self.event_log.push(line);
        if self.event_log.len() > EVENT_LOG_MAX {
            let _ = self.event_log.remove(0);
            assert(self.event_log@ =~= log_after(old(self).event_log@, line));
        }
    }

    /// Takes in a new snapshot and gives the live events it brings.
    pub fn accept_snapshot(&mut self, snapshot: GraphSnapshot) -> (evs: Vec<LogEvent>)
        ensures
            events_of(evs@, old(self).last_snapshot, snapshot),
            final(self).last_snapshot == Some(snapshot),
            final(self).selected_idx == old(self).selected_idx,
            final(self).node_only == old(self).node_only,
            final(self).event_log == old(self).event_log,
    {
        let evs = snapshot_events(&self.last_snapshot, &snapshot);
        self.last_snapshot = Some(snapshot);
        evs
    }

    /// Handles a key press.
    pub fn on_key(&mut self, key: KeyAction) -> (out: KeyOutcome)
        requires
            key == KeyAction::Down ==> old(self).selected_idx < usize::MAX,
        ensures
            final(self).event_log == old(self).event_log,
            key_handled(*old(self), key, *final(self), out),
    {
        match key {
            KeyAction::Quit => KeyOutcome::Quit,
            KeyAction::Refresh => {
                self.last_snapshot = None;
                KeyOutcome::Continue
            },
            KeyAction::ToggleNodeOnly => {
                self.node_only = !self.node_only;
                let mut line = string_from("Node/Bun-only view: ");
                if self.node_only {
                    append_str(&mut line, "ON");
                } else {
                    append_str(&mut line, "OFF");
                }
                KeyOutcome::Log(line)
            },
            KeyAction::Down => {
                let max: usize = match &self.last_snapshot {
                    Some(s) => if s.services.len() >= 1 {
                        s.services.len() - 1
                    } else {
                        0
                    },
                    None => 0,
                };
                let next = self.selected_idx + 1;
                self.selected_idx = if next < max {
                    next
                } else {
                    max
                };
                KeyOutcome::Continue
            },
            KeyAction::Up => {
                self.selected_idx = if self.selected_idx >= 1 {
                    self.selected_idx - 1
                } else {
                    0
                };
                KeyOutcome::Continue
            },
            KeyAction::Ignore => KeyOutcome::Continue,
        }
    }
}

/// The event line of a tap request: method, path, status, its marker and
/// the duration text.
pub open spec fn http_line(e: HttpEntry, marker: Seq<char>, duration: Seq<char>) -> Seq<char> {
    e.method@ + " "@ + e.path@ + " "@ + dec_digits(e.status as nat) + "  "@ + marker + " ("@
        + duration + ")"@
}

pub fn http_event_line(e: &HttpEntry, marker: &str, duration: &str) -> (s: String)
    ensures
        s@ == http_line(*e, marker@, duration@),
{
    let mut s = e.method.clone();
    append_str(&mut s, " ");
    append_str(&mut s, e.path.as_str());
    append_str(&mut s, " ");
    let d = u64_to_string(e.status as u64);
    append_str(&mut s, d.as_str());
    append_str(&mut s, "  ");
    append_str(&mut s, marker);
    append_str(&mut s, " (");
    append_str(&mut s, duration);
    append_str(&mut s, ")");
    s
}

/// The event line of new inbound requests on a port, with the rate text.
pub open spec fn port_line(p: PortStat, n: u64, rate: Seq<char>) -> Seq<char> {
    "\u{2192} :"@ + dec_digits(p.port as nat) + " ("@ + p.service_name@ + ")  +"@ + dec_digits(
        n as nat,
    ) + " request"@ + (if n == 1 {
        ""@
    } else {
        "s"@
    }) + "  total: "@ + dec_digits(p.total_requests as nat) + "  rate: "@ + rate + "  active: "@
        + dec_digits(p.active_connections as nat)
}

pub fn port_event_line(p: &PortStat, new_requests: u64, rate: &str) -> (s: String)
    ensures
        s@ == port_line(*p, new_requests, rate@),
{
    let mut s = string_from("\u{2192} :");
    let d = u64_to_string(p.port as u64);
    append_str(&mut s, d.as_str());
    append_str(&mut s, " (");
    append_str(&mut s, p.service_name.as_str());
    append_str(&mut s, ")  +");
    let n = u64_to_string(new_requests);
    append_str(&mut s, n.as_str());
    append_str(&mut s, " request");
    if new_requests != 1 {
        append_str(&mut s, "s");
    }
    append_str(&mut s, "  total: ");
    let t = u64_to_string(p.total_requests);
    append_str(&mut s, t.as_str());
    append_str(&mut s, "  rate: ");
    append_str(&mut s, rate);
    append_str(&mut s, "  active: ");
    let a = u64_to_string(p.active_connections);
    append_str(&mut s, a.as_str());
    proof {
        if new_requests == 1 {
            reveal_strlit("");
            assert(s@ =~= port_line(*p, new_requests, rate@));
        } else {
            assert(s@ =~= port_line(*p, new_requests, rate@));
        }
    }
    s
}

/// The event line of new calls between two services, with the rate text.
pub open spec fn edge_line(src: Seq<char>, dst: Seq<char>, n: u64, total: u64, rate: Seq<char>) -> Seq<
    char,
> {
    "  "@ + src + " \u{2194} "@ + dst + "  +"@ + dec_digits(n as nat) + "  (total: "@ + dec_digits(
        total as nat,
    ) + "  rate: "@ + rate + ")"@
}

pub fn edge_event_line(src: &str, dst: &str, new_calls: u64, total: u64, rate: &str) -> (s: String)
    ensures
        s@ == edge_line(src@, dst@, new_calls, total, rate@),
{
    let mut s = string_from("  ");
    append_str(&mut s, src);
    append_str(&mut s, " \u{2194} ");
    append_str(&mut s, dst);
    append_str(&mut s, "  +");
    let n = u64_to_string(new_calls);
    append_str(&mut s, n.as_str());
    append_str(&mut s, "  (total: ");
    let t = u64_to_string(total);
    append_str(&mut s, t.as_str());
    append_str(&mut s, "  rate: ");
    append_str(&mut s, rate);
    append_str(&mut s, ")");
    s
}

/// A line of the event log: the time in brackets, then the message.
pub fn stamped_line(time: &str, msg: &str) -> (s: String)
    ensures
        s@ == "["@ + time@ + "] "@ + msg@,
{
    let mut s = string_from("[");
    append_str(&mut s, time);
    append_str(&mut s, "] ");
    append_str(&mut s, msg);
    s
}

} // verus!
