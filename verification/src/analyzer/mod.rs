//! The analyzer: joins process and socket data into the service graph,
//! counts calls between services and inbound requests per port, and keeps
//! the log of HTTP requests seen by the tap.

pub mod connections;
pub mod graph;
pub mod laws;
pub mod state;
pub mod table;

use vstd::prelude::*;
use std::collections::{HashSet, VecDeque};
use crate::analyzer::connections::{
    apply_listening, edge_alive, edge_key_of, edge_models, established_code_set, established_codes,
    evicted_edge, fresh_conns, fresh_connections, inode_pair_list, inode_pairs, lemma_fresh_conns_len,
    listen_pairs, port_models, port_pairs, port_pairs_of, ports_with_listens, prune_edges,
    record_edges, record_new_connections, record_ports, refresh_ports, refreshed_port,
};
use crate::analyzer::graph::{Edge, GraphSnapshot, HttpEntry, PathStat, PortStat, Service};
use crate::analyzer::state::{
    elapsed_secs, secs_since, EdgeModel, EdgeState, PathModel, PathState, PortModel, PortState,
    RATE_WINDOW_SECS,
};
use crate::analyzer::state::{evicted, is_error_status};
use crate::analyzer::laws::{
    events_timed, in_window, law_request_keeps_rate_window, law_snapshot_keeps_rate_window,
};
use crate::text::{
    append_str, chars_of, dec_digits, find_char, first_index, lemma_first_index_bound, slice_copy,
    string_from, string_of, u64_to_string,
};
use crate::analyzer::table::{
    find_text, key_index, lemma_key_index, lemma_pointwise, lemma_push_new, lemma_same_keys_any,
    lemma_update_value, map_of, text_keyed, unique_keys,
};
use crate::collector::node_bun::{enrich, enriched_name};
use crate::collector::CollectorEvent;
use crate::collector::process::ProcessInfo;
use crate::collector::socket::SocketConn;

verus! {

/// Most HTTP requests the log keeps.
pub const HTTP_LOG_MAX: usize = 200;

/// The analyzer's state between events.
pub struct Analyzer {
    processes: Vec<ProcessInfo>,
    port_to_pid: Vec<(u16, u32)>,
    edges: Vec<((u32, u32), EdgeState)>,
    /// Inbound request tracking keyed by listening port
    port_states: Vec<(u16, PortState)>,
    /// Port pairs of the established connections of the previous tick
    prev_conns: HashSet<u32>,
    /// HTTP requests from the tap proxy, oldest first
    http_log: VecDeque<HttpEntry>,
    /// Per-path aggregates from the tap, keyed by path without query
    path_states: Vec<(String, PathState)>,
    /// Listen port of the tap proxy (if active)
    tap_listen_port: Option<u16>,
    /// The latest monotonic time an update was made at
    clock: u64,
}

/// The path table as a list of path texts with counter values.
pub open spec fn path_models(s: Seq<(String, PathState)>) -> Seq<(Seq<char>, PathModel)> {
    s.map_values(|e: (String, PathState)| (e.0@, e.1@))
}

/// Every edge joins two different services, neither with pid 0.
pub open spec fn edge_keys_valid(m: Map<(u32, u32), EdgeModel>) -> bool {
    forall|k: (u32, u32)| #[trigger] m.contains_key(k) ==> k.0 != k.1 && k.0 != 0 && k.1 != 0
}

pub proof fn lemma_record_edges_valid(
    edges: Map<(u32, u32), EdgeModel>,
    news: Seq<SocketConn>,
    inodes: Map<u64, u32>,
    ports: Map<u16, u32>,
    now: u64,
)
    requires
        edge_keys_valid(edges),
    ensures
        edge_keys_valid(record_edges(edges, news, inodes, ports, now)),
    decreases news.len(),
{
    if news.len() > 0 {
        lemma_record_edges_valid(edges, news.drop_last(), inodes, ports, now);
    }
}

/// `b` is `a` after the connection snapshot `conns` at time `now`: the
/// port map is rebuilt from the processes' ports and the listening sockets
/// they own, processes list the ports they were found listening on, each
/// new established connection counts a call on its edge and a request on
/// its local port, open connections per port are counted, old events and
/// idle edges are dropped, and `conns` becomes the previous snapshot.
pub open spec fn integrated(a: Analyzer, b: Analyzer, conns: Seq<SocketConn>, now: u64) -> bool {
    let procs = a.processes();
    let im = map_of(inode_pairs(procs));
    let m2 = map_of(port_pairs(procs) + listen_pairs(conns, im));
    let news = fresh_conns(conns, a.prev_codes());
    let e1 = record_edges(a.edge_map(), news, im, m2, now);
    let p1 = record_ports(a.port_state_map(), news, m2, now);
    &&& b.port_map() == m2
    &&& b.processes().len() == procs.len()
    &&& forall|i: int|
        0 <= i < procs.len() ==> {
            let p = #[trigger] procs[i];
            let q = b.processes()[i];
            &&& q.ports@ == ports_with_listens(p.ports@, conns, im, procs, i)
            &&& q.pid == p.pid
            &&& q.name == p.name
            &&& q.runtime == p.runtime
            &&& q.script == p.script
            &&& q.cwd == p.cwd
            &&& q.service_name == p.service_name
            &&& q.socket_inodes == p.socket_inodes
        }
    &&& b.edge_map() == Map::new(
        |k: (u32, u32)| e1.contains_key(k) && edge_alive(e1[k], now),
        |k: (u32, u32)| evicted_edge(e1[k], now),
    )
    &&& b.port_state_map() == Map::new(
        |k: u16| p1.contains_key(k),
        |k: u16| refreshed_port(k, p1[k], conns, m2, now),
    )
    &&& b.prev_codes() == established_codes(conns)
    &&& b.path_entries() == a.path_entries()
    &&& b.http_log() == a.http_log()
    &&& b.tap_port() == a.tap_port()
}

impl Analyzer {
    /// The processes of the last process snapshot.
    pub closed spec fn processes(&self) -> Seq<ProcessInfo> {
        self.processes@
    }

    /// Which pid listens on which port, as of the last connection snapshot.
    pub closed spec fn port_map(&self) -> Map<u16, u32> {
        map_of(self.port_to_pid@)
    }

    /// The edges, in the order the snapshot lists them.
    pub closed spec fn edge_entries(&self) -> Seq<((u32, u32), EdgeModel)> {
        edge_models(self.edges@)
    }

    /// The inbound port counters, in the order the snapshot lists them.
    pub closed spec fn port_entries(&self) -> Seq<(u16, PortModel)> {
        port_models(self.port_states@)
    }

    /// The path counters, in the order the snapshot lists them.
    pub closed spec fn path_entries(&self) -> Seq<(Seq<char>, PathModel)> {
        path_models(self.path_states@)
    }

    pub open spec fn edge_map(&self) -> Map<(u32, u32), EdgeModel> {
        map_of(self.edge_entries())
    }

    pub open spec fn port_state_map(&self) -> Map<u16, PortModel> {
        map_of(self.port_entries())
    }

    pub open spec fn path_map(&self) -> Map<Seq<char>, PathModel> {
        map_of(self.path_entries())
    }

    /// Port pairs of the established connections of the previous snapshot.
    pub closed spec fn prev_codes(&self) -> Set<u32> {
        self.prev_conns@
    }

    /// The HTTP requests kept, oldest first.
    pub closed spec fn http_log(&self) -> Seq<HttpEntry> {
        self.http_log@
    }

    pub closed spec fn tap_port(&self) -> Option<u16> {
        self.tap_listen_port
    }

    /// The latest monotonic time a snapshot or request was taken in at.
    pub closed spec fn clock(&self) -> u64 {
        self.clock
    }

    /// Each table has one entry per key, every edge joins two different
    /// known services, the HTTP log holds at most `HTTP_LOG_MAX` requests,
    /// and the recent events of every counter are in time order, none later
    /// than the clock.
    pub open spec fn wf(&self) -> bool {
        &&& unique_keys(self.edge_entries())
        &&& unique_keys(self.port_entries())
        &&& unique_keys(self.path_entries())
        &&& edge_keys_valid(self.edge_map())
        &&& self.http_log().len() <= HTTP_LOG_MAX
        &&& events_timed(*self, self.clock())
    }

    /// No edge or port counter would overflow after `n` more increments.
    pub open spec fn counts_below(&self, n: nat) -> bool {
        &&& forall|i: int|
            0 <= i < self.edge_entries().len() ==> (#[trigger] self.edge_entries()[i]).1.total_calls
                + n <= u64::MAX
        &&& forall|i: int|
            0 <= i < self.port_entries().len() ==> (#[trigger] self.port_entries()[i]).1.total_requests
                + n <= u64::MAX
    }

    pub fn new() -> (a: Self)
        ensures
            a.wf(),
            a.processes().len() == 0,
            a.port_map() == Map::<u16, u32>::empty(),
            a.edge_map() == Map::<(u32, u32), EdgeModel>::empty(),
            a.port_state_map() == Map::<u16, PortModel>::empty(),
            a.path_map() == Map::<Seq<char>, PathModel>::empty(),
            a.prev_codes() == Set::<u32>::empty(),
            a.http_log().len() == 0,
            a.tap_port() is None,
            a.clock() == 0,
    {
        let a = Self {
            processes: Vec::new(),
            port_to_pid: Vec::new(),
            edges: Vec::new(),
            port_states: Vec::new(),
            prev_conns: HashSet::new(),
            http_log: VecDeque::new(),
            path_states: Vec::new(),
            tap_listen_port: None,
            clock: 0,
        };
        assert(a.edge_entries() =~= Seq::<((u32, u32), EdgeModel)>::empty());
        assert(a.port_entries() =~= Seq::<(u16, PortModel)>::empty());
        assert(a.path_entries() =~= Seq::<(Seq<char>, PathModel)>::empty());
        assert(a.port_map() =~= Map::<u16, u32>::empty());
        assert(a.edge_map() =~= Map::<(u32, u32), EdgeModel>::empty());
        a
    }

    pub fn set_tap_port(&mut self, port: u16)
        ensures
            final(self).tap_port() == Some(port),
            final(self).processes() == old(self).processes(),
            final(self).port_map() == old(self).port_map(),
            final(self).edge_entries() == old(self).edge_entries(),
            final(self).port_entries() == old(self).port_entries(),
            final(self).path_entries() == old(self).path_entries(),
            final(self).prev_codes() == old(self).prev_codes(),
            final(self).http_log() == old(self).http_log(),
            final(self).clock() == old(self).clock(),
    {
        self.tap_listen_port = Some(port);
    }

    /// The latest monotonic time an update was made at.
    pub fn clock_ms(&self) -> (t: u64)
        ensures
            t == self.clock(),
    {
        self.clock
    }

    /// Whether every edge and port counter has room for `n` more counts.
    pub fn has_headroom(&self, n: u64) -> (b: bool)
        ensures
            b == self.counts_below(n as nat),
    {
        let mut i: usize = 0;
        while i < self.edges.len()
            invariant
                i <= self.edges@.len(),
                forall|j: int|
                    0 <= j < i ==> (#[trigger] self.edge_entries()[j]).1.total_calls + n
                        <= u64::MAX,
            decreases self.edges.len() - i,
        {
            if self.edges[i].1.total_calls > u64::MAX - n {
                assert(self.edge_entries()[i as int].1.total_calls == self.edges@[i as int].1.total_calls);
                return false;
            }
            assert(self.edge_entries()[i as int].1.total_calls == self.edges@[i as int].1.total_calls);
            i = i + 1;
        }
        let mut j: usize = 0;
        while j < self.port_states.len()
            invariant
                j <= self.port_states@.len(),
                forall|k: int|
                    0 <= k < j ==> (#[trigger] self.port_entries()[k]).1.total_requests + n
                        <= u64::MAX,
            decreases self.port_states.len() - j,
        {
            if self.port_states[j].1.total_requests > u64::MAX - n {
                assert(self.port_entries()[j as int].1.total_requests
                    == self.port_states@[j as int].1.total_requests);
                return false;
            }
            assert(self.port_entries()[j as int].1.total_requests
                == self.port_states@[j as int].1.total_requests);
            j = j + 1;
        }
        true
    }

    /// Joins one snapshot of the socket table with the processes: learns
    /// which process listens where, counts a call on the edge between two
    /// services for each new connection between them and an inbound request
    /// on a port for each new connection to it, then drops events that left
    /// the rate window and edges idle for too long.
    pub fn integrate_connections(&mut self, conns: Vec<SocketConn>, now: u64)
        requires
            old(self).wf(),
            old(self).counts_below(conns@.len()),
            old(self).clock() <= now,
        ensures
            final(self).wf(),
            integrated(*old(self), *final(self), conns@, now),
            final(self).clock() == now,
            forall|k: (u32, u32)| #[trigger]
                final(self).edge_map().contains_key(k) ==> in_window(
                    final(self).edge_map()[k].recent,
                    now,
                ),
            forall|k: u16| #[trigger]
                final(self).port_state_map().contains_key(k) ==> in_window(
                    final(self).port_state_map()[k].recent,
                    now,
                ),
    {
        // which process owns which port, and which socket
        let mut pairs = port_pairs_of(&self.processes);
        let inodes = inode_pair_list(&self.processes);
        apply_listening(&mut self.processes, &mut pairs, &conns, &inodes);
        self.port_to_pid = pairs;
        // connections that were not there last tick
        let news = fresh_connections(&conns, &self.prev_conns);
        proof {
            lemma_fresh_conns_len(conns@, self.prev_conns@);
            lemma_record_edges_valid(
                old(self).edge_map(),
                news@,
                map_of(inodes@),
                map_of(self.port_to_pid@),
                now,
            );
            assert forall|i: int| 0 <= i < self.edges@.len() implies (
            #[trigger] self.edges@[i]).1.total_calls + news@.len() <= u64::MAX by {
                assert(old(self).edge_entries()[i].1.total_calls == self.edges@[i].1.total_calls);
            }
            assert forall|i: int| 0 <= i < self.port_states@.len() implies (
            #[trigger] self.port_states@[i]).1.total_requests + news@.len() <= u64::MAX by {
                assert(old(self).port_entries()[i].1.total_requests
                    == self.port_states@[i].1.total_requests);
            }
        }
        record_new_connections(
            &mut self.edges,
            &mut self.port_states,
            &news,
            &inodes,
            &self.port_to_pid,
            now,
        );
        self.prev_conns = established_code_set(&conns);
        refresh_ports(&mut self.port_states, &conns, &self.port_to_pid, now);
        prune_edges(&mut self.edges, now);
        self.clock = now;
        assert(integrated(*old(self), *self, conns@, now));
        proof {
            law_snapshot_keeps_rate_window(*old(self), *self, conns@, old(self).clock(), now);
        }
    }
}


/// A service is shown as the process it stands for.
pub open spec fn service_matches(s: Service, p: ProcessInfo) -> bool {
    &&& s.pid == p.pid
    &&& s.name == p.service_name
    &&& s.runtime == p.runtime
    &&& s.script == p.script
    &&& s.cwd == p.cwd
    &&& s.ports@ == p.ports@
}

/// The row of the call table for one edge at time `now`.
pub open spec fn edge_stat(e: ((u32, u32), EdgeModel), now: u64) -> Edge {
    Edge {
        src_pid: e.0.0,
        dst_pid: e.0.1,
        total_calls: e.1.total_calls,
        recent_calls: e.1.recent.len() as u64,
        window_secs: RATE_WINDOW_SECS,
        idle_secs: elapsed_secs(e.1.last_seen, now),
    }
}

/// Index of the last process with pid `pid`, or -1: the one whose name a
/// pid-keyed map built from the list in order keeps.
pub open spec fn last_with_pid(procs: Seq<ProcessInfo>, pid: u32) -> int
    decreases procs.len(),
{
    if procs.len() == 0 {
        -1
    } else if procs.last().pid == pid {
        procs.len() - 1
    } else {
        last_with_pid(procs.drop_last(), pid)
    }
}

pub proof fn lemma_last_with_pid(procs: Seq<ProcessInfo>, pid: u32)
    ensures
        -1 <= last_with_pid(procs, pid) < procs.len(),
        last_with_pid(procs, pid) >= 0 ==> procs[last_with_pid(procs, pid)].pid == pid,
    decreases procs.len(),
{
    if procs.len() > 0 && procs.last().pid != pid {
        lemma_last_with_pid(procs.drop_last(), pid);
    }
}

/// The name shown for the owner of a port: the service name of the (last)
/// process with that pid, else "pid:" and the number.
pub open spec fn owner_name(procs: Seq<ProcessInfo>, pid: u32) -> Seq<char> {
    let i = last_with_pid(procs, pid);
    if i >= 0 {
        procs[i].service_name@
    } else {
        "pid:"@ + dec_digits(pid as nat)
    }
}

pub open spec fn port_stat_matches(
    ps: PortStat,
    e: (u16, PortModel),
    procs: Seq<ProcessInfo>,
    now: u64,
) -> bool {
    &&& ps.port == e.0
    &&& ps.pid == e.1.pid
    &&& ps.service_name@ == owner_name(procs, e.1.pid)
    &&& ps.total_requests == e.1.total_requests
    &&& ps.recent_requests == e.1.recent.len()
    &&& ps.window_secs == RATE_WINDOW_SECS
    &&& ps.active_connections == e.1.active_connections
    &&& ps.idle_secs == elapsed_secs(e.1.last_seen, now)
}

/// Mean duration of a path's requests (0 before the first).
pub open spec fn avg_duration(m: PathModel) -> u64 {
    if m.total_calls == 0 {
        0
    } else {
        (m.duration_sum_ms / m.total_calls) as u64
    }
}

pub open spec fn path_stat_matches(ps: PathStat, e: (Seq<char>, PathModel)) -> bool {
    &&& ps.path@ == e.0
    &&& ps.total_calls == e.1.total_calls
    &&& ps.recent_calls == e.1.recent.len()
    &&& ps.window_secs == RATE_WINDOW_SECS
    &&& ps.avg_duration_ms == avg_duration(e.1)
    &&& ps.last_status == e.1.last_status
    &&& ps.error_count == e.1.error_count
}

/// `s` shows the analyzer's state at time `now`: one service per process,
/// one row per edge, port and path (in table order), the HTTP log and the
/// tap port.
pub open spec fn snapshot_matches(s: GraphSnapshot, a: Analyzer, now: u64) -> bool {
    &&& s.services@.len() == a.processes().len()
    &&& forall|i: int|
        0 <= i < s.services@.len() ==> service_matches(#[trigger] s.services@[i], a.processes()[i])
    &&& s.edges@.len() == a.edge_entries().len()
    &&& forall|i: int|
        0 <= i < s.edges@.len() ==> #[trigger] s.edges@[i] == edge_stat(a.edge_entries()[i], now)
    &&& s.port_stats@.len() == a.port_entries().len()
    &&& forall|i: int|
        0 <= i < s.port_stats@.len() ==> port_stat_matches(
            #[trigger] s.port_stats@[i],
            a.port_entries()[i],
            a.processes(),
            now,
        )
    &&& s.http_log@ == a.http_log()
    &&& s.path_stats@.len() == a.path_entries().len()
    &&& forall|i: int|
        0 <= i < s.path_stats@.len() ==> path_stat_matches(
            #[trigger] s.path_stats@[i],
            a.path_entries()[i],
        )
    &&& s.tap_listen_port == a.tap_port()
}

/// A copy of an optional string.
pub fn clone_opt_string(o: &Option<String>) -> (r: Option<String>)
    ensures
        r == *o,
{
    match o {
        Some(s) => Some(s.clone()),
        None => None,
    }
}

/// A copy of a list of ports.
pub fn copy_ports(v: &Vec<u16>) -> (r: Vec<u16>)
    ensures
        r@ == v@,
{
    let mut r: Vec<u16> = Vec::new();
    let mut i: usize = 0;
    while i < v.len()
        invariant
            i <= v@.len(),
            r@ == v@.take(i as int),
        decreases v.len() - i,
    {
        r.push(v[i]);
        i = i + 1;
        assert(r@ =~= v@.take(i as int));
    }
    assert(v@.take(i as int) =~= v@);
    r
}

impl HttpEntry {
    /// A copy of this entry.
    pub fn duplicate(&self) -> (r: HttpEntry)
        ensures
            r == *self,
    {
        HttpEntry {
            method: self.method.clone(),
            path: self.path.clone(),
            status: self.status,
            duration_ms: self.duration_ms,
            timestamp: self.timestamp,
        }
    }
}

impl Analyzer {
    fn owner_name_of(&self, pid: u32) -> (s: String)
        ensures
            s@ == owner_name(self.processes(), pid),
    {
        let mut j = self.processes.len();
        assert(self.processes@.take(j as int) =~= self.processes@);
        while j > 0
            invariant
                j <= self.processes@.len(),
                last_with_pid(self.processes@, pid) == last_with_pid(
                    self.processes@.take(j as int),
                    pid,
                ),
            decreases j,
        {
            assert(self.processes@.take(j as int).drop_last() =~= self.processes@.take(j - 1));
            if self.processes[j - 1].pid == pid {
                return self.processes[j - 1].service_name.clone();
            }
            j = j - 1;
        }
        let mut s = string_from("pid:");
        let d = u64_to_string(pid as u64);
        append_str(&mut s, d.as_str());
        s
    }

    /// Point-in-time snapshot of the graph at time `now`, stamped `timestamp`.
    pub fn build_snapshot(&self, now: u64, timestamp: i64) -> (s: GraphSnapshot)
        ensures
            snapshot_matches(s, *self, now),
            s.timestamp == timestamp,
    {
        let mut services: Vec<Service> = Vec::new();
        let mut i: usize = 0;
        while i < self.processes.len()
            invariant
                i <= self.processes@.len(),
                services@.len() == i,
                forall|k: int|
                    0 <= k < i ==> service_matches(#[trigger] services@[k], self.processes@[k]),
            decreases self.processes.len() - i,
        {
            let p = &self.processes[i];
            services.push(
                Service {
                    pid: p.pid,
                    name: p.service_name.clone(),
                    runtime: p.runtime.duplicate(),
                    script: clone_opt_string(&p.script),
                    cwd: clone_opt_string(&p.cwd),
                    ports: copy_ports(&p.ports),
                },
            );
            i = i + 1;
        }
        let mut edges: Vec<Edge> = Vec::new();
        let mut i: usize = 0;
        while i < self.edges.len()
            invariant
                i <= self.edges@.len(),
                edges@.len() == i,
                forall|k: int|
                    0 <= k < i ==> #[trigger] edges@[k] == edge_stat(self.edge_entries()[k], now),
            decreases self.edges.len() - i,
        {
            let e = &self.edges[i];
            edges.push(
                Edge {
                    src_pid: e.0.0,
                    dst_pid: e.0.1,
                    total_calls: e.1.total_calls,
                    recent_calls: e.1.recent_calls(),
                    window_secs: RATE_WINDOW_SECS,
                    idle_secs: secs_since(e.1.last_seen, now),
                },
            );
            i = i + 1;
        }
        let mut port_stats: Vec<PortStat> = Vec::new();
        let mut i: usize = 0;
        while i < self.port_states.len()
            invariant
                i <= self.port_states@.len(),
                port_stats@.len() == i,
                forall|k: int|
                    0 <= k < i ==> port_stat_matches(
                        #[trigger] port_stats@[k],
                        self.port_entries()[k],
                        self.processes(),
                        now,
                    ),
            decreases self.port_states.len() - i,
        {
            let e = &self.port_states[i];
            port_stats.push(
                PortStat {
                    port: e.0,
                    pid: e.1.pid,
                    service_name: self.owner_name_of(e.1.pid),
                    total_requests: e.1.total_requests,
                    recent_requests: e.1.recent_requests(),
                    window_secs: RATE_WINDOW_SECS,
                    active_connections: e.1.active_connections,
                    idle_secs: secs_since(e.1.last_seen, now),
                },
            );
            i = i + 1;
        }
        let mut http_log: Vec<HttpEntry> = Vec::new();
        let mut i: usize = 0;
        while i < self.http_log.len()
            invariant
                i <= self.http_log@.len(),
                http_log@ == self.http_log@.take(i as int),
            decreases self.http_log.len() - i,
        {
            http_log.push(self.http_log[i].duplicate());
            i = i + 1;
            assert(http_log@ =~= self.http_log@.take(i as int));
        }
        assert(self.http_log@.take(i as int) =~= self.http_log@);
        let mut path_stats: Vec<PathStat> = Vec::new();
        let mut i: usize = 0;
        while i < self.path_states.len()
            invariant
                i <= self.path_states@.len(),
                path_stats@.len() == i,
                forall|k: int|
                    0 <= k < i ==> path_stat_matches(
                        #[trigger] path_stats@[k],
                        self.path_entries()[k],
                    ),
            decreases self.path_states.len() - i,
        {
            let e = &self.path_states[i];
            path_stats.push(
                PathStat {
                    path: e.0.clone(),
                    total_calls: e.1.total_calls,
                    recent_calls: e.1.recent.len() as u64,
                    window_secs: RATE_WINDOW_SECS,
                    avg_duration_ms: e.1.avg_duration_ms(),
                    last_status: e.1.last_status,
                    error_count: e.1.error_count,
                },
            );
            i = i + 1;
        }
        GraphSnapshot {
            services,
            edges,
            port_stats,
            http_log,
            path_stats,
            tap_listen_port: self.tap_listen_port,
            timestamp,
        }
    }
}


/// The key a request path is aggregated under: the path without its query.
pub open spec fn path_key(path: Seq<char>) -> Seq<char> {
    path.take(first_index(path, '?') as int)
}

/// A path's counters after one more request.
pub open spec fn recorded_path(m: Option<PathModel>, status: u16, duration_ms: u64, now: u64) -> PathModel {
    match m {
        Some(p) => PathModel {
            total_calls: (p.total_calls + 1) as u64,
            recent: p.recent.push(now),
            duration_sum_ms: (p.duration_sum_ms + duration_ms) as u64,
            last_status: status,
            error_count: (p.error_count + if is_error_status(status) {
                1int
            } else {
                0int
            }) as u64,
        },
        None => PathModel {
            total_calls: 1,
            recent: seq![now],
            duration_sum_ms: duration_ms,
            last_status: status,
            error_count: if is_error_status(status) {
                1
            } else {
                0
            },
        },
    }
}

/// A path's counters with its old events dropped.
pub open spec fn evicted_path(m: PathModel, now: u64) -> PathModel {
    PathModel {
        total_calls: m.total_calls,
        recent: evicted(m.recent, now),
        duration_sum_ms: m.duration_sum_ms,
        last_status: m.last_status,
        error_count: m.error_count,
    }
}

/// The newest `HTTP_LOG_MAX` entries of a log.
pub open spec fn bounded_log(log: Seq<HttpEntry>) -> Seq<HttpEntry> {
    if log.len() > HTTP_LOG_MAX {
        log.skip(log.len() - HTTP_LOG_MAX)
    } else {
        log
    }
}

/// The counters of the path a request goes to have room for it.
pub open spec fn path_headroom(a: Analyzer, path: Seq<char>, duration_ms: u64) -> bool {
    let key = path_key(path);
    a.path_map().contains_key(key) ==> {
        let m = a.path_map()[key];
        &&& m.total_calls < u64::MAX
        &&& m.error_count < u64::MAX
        &&& m.duration_sum_ms + duration_ms <= u64::MAX
    }
}

/// `b` is `a` after the tap reported a request: its path's counters count
/// it, every path drops its old events, and the log ends with it, keeping
/// the newest `HTTP_LOG_MAX` entries.
pub open spec fn recorded_http(
    a: Analyzer,
    b: Analyzer,
    entry: HttpEntry,
    now: u64,
) -> bool {
    let key = path_key(entry.path@);
    let p1 = a.path_map().insert(
        key,
        recorded_path(
            if a.path_map().contains_key(key) {
                Some(a.path_map()[key])
            } else {
                None
            },
            entry.status,
            entry.duration_ms,
            now,
        ),
    );
    &&& b.path_map() == Map::new(
        |k: Seq<char>| p1.contains_key(k),
        |k: Seq<char>| evicted_path(p1[k], now),
    )
    &&& b.http_log() == bounded_log(a.http_log().push(entry))
    &&& b.processes() == a.processes()
    &&& b.port_map() == a.port_map()
    &&& b.edge_entries() == a.edge_entries()
    &&& b.port_entries() == a.port_entries()
    &&& b.prev_codes() == a.prev_codes()
    &&& b.tap_port() == a.tap_port()
}

/// `b` is `a` after a process snapshot: it holds the processes of `procs`,
/// Node/Bun ones named with their framework when one is recognised.
pub open spec fn took_processes(a: Analyzer, b: Analyzer, procs: Seq<ProcessInfo>) -> bool {
    &&& b.processes().len() == procs.len()
    &&& forall|i: int|
        0 <= i < procs.len() ==> {
            let p = #[trigger] procs[i];
            let q = b.processes()[i];
            &&& q.service_name@ == enriched_name(p)
            &&& q.pid == p.pid
            &&& q.name == p.name
            &&& q.runtime == p.runtime
            &&& q.script == p.script
            &&& q.cwd == p.cwd
            &&& q.ports == p.ports
            &&& q.socket_inodes == p.socket_inodes
        }
    &&& b.port_map() == a.port_map()
    &&& b.edge_entries() == a.edge_entries()
    &&& b.port_entries() == a.port_entries()
    &&& b.path_entries() == a.path_entries()
    &&& b.prev_codes() == a.prev_codes()
    &&& b.http_log() == a.http_log()
    &&& b.tap_port() == a.tap_port()
}

/// The path a request is aggregated under: the part before the first `?`.
pub fn path_key_of(path: &str) -> (k: String)
    ensures
        k@ == path_key(path@),
{
    let v = chars_of(path);
    let q = find_char(&v, '?');
    let head = slice_copy(&v, 0, q);
    assert(head@ =~= path@.take(q as int));
    string_of(&head)
}

impl Analyzer {
    /// Whether the counters of the path a request goes to have room for it.
    pub fn can_record_http(&self, path: &str, duration_ms: u64) -> (b: bool)
        requires
            self.wf(),
        ensures
            b == path_headroom(*self, path@, duration_ms),
    {
        let key = path_key_of(path);
        let ghost pm = path_models(self.path_states@);
        proof {
            assert forall|j: int| 0 <= j < self.path_states@.len() implies #[trigger] text_keyed(self.path_states@)[j].0 == pm[j].0 by {}
            lemma_same_keys_any(
                text_keyed(self.path_states@),
                pm,
                key@,
            );
            lemma_key_index(pm, key@);
        }
        match find_text(&self.path_states, &key) {
            Some(ix) => {
                let st = &self.path_states[ix].1;
                assert(pm[ix as int].1 == st@);
                st.total_calls < u64::MAX && st.error_count < u64::MAX && st.duration_sum_ms
                    <= u64::MAX - duration_ms
            },
            None => true,
        }
    }

    /// Records one request seen by the tap.
    pub fn record_http(
        &mut self,
        method: String,
        path: String,
        status: u16,
        duration_ms: u64,
        timestamp: i64,
        now: u64,
    )
        requires
            old(self).wf(),
            path_headroom(*old(self), path@, duration_ms),
            old(self).clock() <= now,
        ensures
            final(self).wf(),
            recorded_http(
                *old(self),
                *final(self),
                HttpEntry { method, path, status, duration_ms, timestamp },
                now,
            ),
            final(self).clock() == now,
            forall|k: Seq<char>| #[trigger]
                final(self).path_map().contains_key(k) ==> in_window(
                    final(self).path_map()[k].recent,
                    now,
                ),
    {
        let ghost entry = HttpEntry { method, path, status, duration_ms, timestamp };
        let key = path_key_of(path.as_str());
        let ghost pm = path_models(self.path_states@);
        let ghost pmap0 = map_of(pm);
        proof {
            assert forall|j: int| 0 <= j < self.path_states@.len() implies #[trigger] text_keyed(self.path_states@)[j].0 == pm[j].0 by {}
            lemma_same_keys_any(
                text_keyed(self.path_states@),
                pm,
                key@,
            );
            lemma_key_index(pm, key@);
        }
        match find_text(&self.path_states, &key) {
            Some(ix) => {
                let ghost old_entry = self.path_states@[ix as int];
                assert(pm[ix as int].1 == old_entry.1@);
                self.path_states[ix].1.record(now, status, duration_ms);
                proof {
                    assert(self.path_states@[ix as int].1@ == recorded_path(
                        Some(pmap0[key@]),
                        status,
                        duration_ms,
                        now,
                    ));
                    lemma_update_value(pm, ix as int, self.path_states@[ix as int].1@);
                    assert(path_models(self.path_states@) =~= pm.update(
                        ix as int,
                        (pm[ix as int].0, self.path_states@[ix as int].1@),
                    ));
                }
            },
            None => {
                let mut st = PathState::new();
                st.record(now, status, duration_ms);
                assert(st.recent@ =~= seq![now]);
                assert(st@ == recorded_path(None, status, duration_ms, now));
                proof {
                    lemma_push_new(pm, key@, st@);
                }
                let ghost k = key@;
                self.path_states.push((key, st));
                assert(path_models(self.path_states@) =~= pm.push((k, st@)));
            },
        }
        let ghost p1 = pmap0.insert(
            key@,
            recorded_path(
                if pmap0.contains_key(key@) {
                    Some(pmap0[key@])
                } else {
                    None
                },
                status,
                duration_ms,
                now,
            ),
        );
        assert(map_of(path_models(self.path_states@)) == p1);
        // drop old events of every path
        let ghost s0 = path_models(self.path_states@);
        let ghost e0 = self.path_states@;
        let mut j: usize = 0;
        while j < self.path_states.len()
            invariant
                j <= self.path_states@.len(),
                self.path_states@.len() == e0.len(),
                s0 == path_models(e0),
                forall|k: int| 0 <= k < e0.len() ==> (#[trigger] self.path_states@[k]).0 == e0[k].0,
                forall|k: int|
                    0 <= k < j ==> (#[trigger] self.path_states@[k]).1@ == evicted_path(
                        e0[k].1@,
                        now,
                    ),
                forall|k: int| j <= k < e0.len() ==> (#[trigger] self.path_states@[k]).1@ == e0[k].1@,
                self.http_log@ == old(self).http_log@,
                self.http_log@.len() <= HTTP_LOG_MAX,
                self.processes == old(self).processes,
                self.port_to_pid == old(self).port_to_pid,
                self.edges == old(self).edges,
                self.port_states == old(self).port_states,
                self.prev_conns == old(self).prev_conns,
                self.tap_listen_port == old(self).tap_listen_port,
                self.clock == old(self).clock,
            decreases self.path_states.len() - j,
        {
            let ghost before = self.path_states@;
            self.path_states[j].1.evict_old(now);
            proof {
                assert forall|k: int| 0 <= k < e0.len() && k != j implies #[trigger] self.path_states@[k]
                    == before[k] by {}
            }
            j = j + 1;
        }
        proof {
            let s1 = path_models(self.path_states@);
            assert forall|k: int| 0 <= k < s0.len() implies (#[trigger] s1[k]).0 == s0[k].0
                && s1[k].1 == evicted_path(s0[k].1, now) by {
                assert(s1[k] == (self.path_states@[k].0@, self.path_states@[k].1@));
                assert(s0[k] == (e0[k].0@, e0[k].1@));
            }
            lemma_pointwise(s0, s1, |k: Seq<char>, m: PathModel| evicted_path(m, now));
        }
        assert(self.path_map() == Map::new(
            |k: Seq<char>| p1.contains_key(k),
            |k: Seq<char>| evicted_path(p1[k], now),
        ));
        // log the request, keeping the newest entries
        self.http_log.push_back(HttpEntry { method, path, status, duration_ms, timestamp });
        assert(self.http_log@ == old(self).http_log@.push(entry));
        if self.http_log.len() > HTTP_LOG_MAX {
            let _ = self.http_log.pop_front();
            assert(self.http_log@ =~= bounded_log(old(self).http_log@.push(entry)));
        }
        self.clock = now;
        assert(recorded_http(*old(self), *self, entry, now));
        proof {
            law_request_keeps_rate_window(*old(self), *self, entry, old(self).clock(), now);
        }
    }

    /// Handles one event from the collectors at monotonic time `now`; after a
    /// connection snapshot or a tap request it gives the snapshot to show,
    /// stamped with the wall-clock time `wall_ms`.
    pub fn step(&mut self, event: CollectorEvent, now: u64, wall_ms: i64) -> (out: Option<GraphSnapshot>)
        requires
            old(self).wf(),
            old(self).clock() <= now,
            match event {
                CollectorEvent::ConnectionSnapshot(conns) => old(self).counts_below(conns@.len()),
                CollectorEvent::HttpRequest { path, duration_ms, .. } => path_headroom(
                    *old(self),
                    path@,
                    duration_ms,
                ),
                CollectorEvent::ProcessSnapshot(_) => true,
            },
        ensures
            final(self).wf(),
            match event {
                CollectorEvent::ProcessSnapshot(procs) => {
                    &&& took_processes(*old(self), *final(self), procs@)
                    &&& final(self).clock() == old(self).clock()
                    &&& out is None
                },
                CollectorEvent::ConnectionSnapshot(conns) => {
                    &&& integrated(*old(self), *final(self), conns@, now)
                    &&& final(self).clock() == now
                    &&& out matches Some(s) && snapshot_matches(s, *final(self), now) && s.timestamp == wall_ms
                },
                CollectorEvent::HttpRequest { method, path, status, duration_ms, timestamp } => {
                    &&& recorded_http(
                        *old(self),
                        *final(self),
                        HttpEntry { method, path, status, duration_ms, timestamp },
                        now,
                    )
                    &&& final(self).clock() == now
                    &&& out matches Some(s) && snapshot_matches(s, *final(self), now) && s.timestamp == wall_ms
                },
            },
    {
        match event {
            CollectorEvent::ProcessSnapshot(procs) => {
                let mut procs = procs;
                enrich(&mut procs);
                self.processes = procs;
                assert(self.edge_map() == old(self).edge_map());
                assert(self.port_state_map() == old(self).port_state_map());
                assert(self.path_map() == old(self).path_map());
                assert(events_timed(*self, self.clock()));
                None
            },
            CollectorEvent::ConnectionSnapshot(conns) => {
                self.integrate_connections(conns, now);
                Some(self.build_snapshot(now, wall_ms))
            },
            CollectorEvent::HttpRequest { method, path, status, duration_ms, timestamp } => {
                self.record_http(method, path, status, duration_ms, timestamp, now);
                Some(self.build_snapshot(now, wall_ms))
            },
        }
    }
}

} // verus!
