//! What holds of the analyzer across snapshots and requests: how new
//! connections are counted, what a repeated snapshot adds, which edges stay,
//! and what the request log keeps.

use vstd::prelude::*;
use crate::analyzer::{
    bounded_log, integrated, path_key, recorded_http, snapshot_matches, took_processes, Analyzer,
    HTTP_LOG_MAX,
};
use crate::analyzer::connections::{
    conn_code, count_established, edge_alive, edge_key_of, established_codes, fresh_conns, inode_pairs,
    listen_pairs, port_pairs, ports_with_listens, record_edges, record_ports,
};
use crate::analyzer::graph::{GraphSnapshot, HttpEntry};
use crate::analyzer::state::{
    evicted, law_evicted_window, law_time_order_kept, time_ordered, EdgeModel, PortModel,
    RATE_WINDOW_MS,
};
use crate::analyzer::table::{key_index, lemma_key_index, map_of};
use crate::collector::node_bun::enriched_name;
use crate::collector::process::ProcessInfo;
use crate::collector::socket::{ConnState, SocketConn};

verus! {

/// How many of the connections `news` arrive at local port `port`.
pub open spec fn requests_to(news: Seq<SocketConn>, port: u16) -> nat
    decreases news.len(),
{
    if news.len() == 0 {
        0
    } else {
        requests_to(news.drop_last(), port) + if news.last().local_port == port {
            1nat
        } else {
            0nat
        }
    }
}

/// How many of the connections `news` join the two services of edge `k`.
pub open spec fn calls_on(
    news: Seq<SocketConn>,
    inodes: Map<u64, u32>,
    ports: Map<u16, u32>,
    k: (u32, u32),
) -> nat
    decreases news.len(),
{
    if news.len() == 0 {
        0
    } else {
        calls_on(news.drop_last(), inodes, ports, k) + if edge_key_of(news.last(), inodes, ports)
            == Some(k) {
            1nat
        } else {
            0nat
        }
    }
}

/// The total of a port's inbound requests, 0 when it has no counter.
pub open spec fn port_total(m: Map<u16, PortModel>, port: u16) -> int {
    if m.contains_key(port) {
        m[port].total_requests as int
    } else {
        0
    }
}

/// The total of an edge's calls, 0 when it has no counter.
pub open spec fn edge_total(m: Map<(u32, u32), EdgeModel>, k: (u32, u32)) -> int {
    if m.contains_key(k) {
        m[k].total_calls as int
    } else {
        0
    }
}

proof fn lemma_record_ports_count(
    states: Map<u16, PortModel>,
    news: Seq<SocketConn>,
    ports: Map<u16, u32>,
    now: u64,
    port: u16,
)
    requires
        port_total(states, port) + requests_to(news, port) <= u64::MAX,
    ensures
        ({
            let r = record_ports(states, news, ports, now);
            if ports.contains_key(port) && ports[port] != 0 {
                &&& r.contains_key(port) <==> (states.contains_key(port) || requests_to(news, port)
                    > 0)
                &&& r.contains_key(port) ==> r[port].total_requests == port_total(states, port)
                    + requests_to(news, port)
            } else {
                &&& r.contains_key(port) == states.contains_key(port)
                &&& states.contains_key(port) ==> r[port].total_requests
                    == states[port].total_requests
            }
        }),
    decreases news.len(),
{
    if news.len() > 0 {
        lemma_record_ports_count(states, news.drop_last(), ports, now, port);
    }
}

proof fn lemma_record_edges_count(
    edges: Map<(u32, u32), EdgeModel>,
    news: Seq<SocketConn>,
    inodes: Map<u64, u32>,
    ports: Map<u16, u32>,
    now: u64,
    k: (u32, u32),
)
    requires
        edge_total(edges, k) + calls_on(news, inodes, ports, k) <= u64::MAX,
    ensures
        ({
            let r = record_edges(edges, news, inodes, ports, now);
            let n = calls_on(news, inodes, ports, k);
            &&& r.contains_key(k) <==> (edges.contains_key(k) || n > 0)
            &&& r.contains_key(k) ==> r[k].total_calls == edge_total(edges, k) + n
            &&& n > 0 ==> r[k].last_seen == now
            &&& n == 0 && edges.contains_key(k) ==> r[k] == edges[k]
        }),
    decreases news.len(),
{
    if news.len() > 0 {
        lemma_record_edges_count(edges, news.drop_last(), inodes, ports, now, k);
    }
}

proof fn lemma_established_in_codes(conns: Seq<SocketConn>, i: int)
    requires
        0 <= i < conns.len(),
        conns[i].state == ConnState::Established,
    ensures
        established_codes(conns).contains(conn_code(conns[i])),
    decreases conns.len(),
{
    if i < conns.len() - 1 {
        lemma_established_in_codes(conns.drop_last(), i);
    }
}

proof fn lemma_nothing_fresh(conns: Seq<SocketConn>, prev: Set<u32>)
    requires
        forall|i: int|
            0 <= i < conns.len() && (#[trigger] conns[i]).state == ConnState::Established
                ==> prev.contains(conn_code(conns[i])),
    ensures
        fresh_conns(conns, prev).len() == 0,
    decreases conns.len(),
{
    if conns.len() > 0 {
        let rest = conns.drop_last();
        assert forall|i: int|
            0 <= i < rest.len() && (#[trigger] rest[i]).state == ConnState::Established
                implies prev.contains(conn_code(rest[i])) by {
            assert(rest[i] == conns[i]);
        }
        lemma_nothing_fresh(rest, prev);
        assert(conns.last() == conns[conns.len() - 1]);
    }
}

/// Each established connection that was not in the previous snapshot
/// counts one inbound request on its local port, when a process (other than
/// pid 0) listens there; the counter of any other port keeps its total.
pub proof fn law_inbound_requests_counted(
    a: Analyzer,
    b: Analyzer,
    conns: Seq<SocketConn>,
    now: u64,
    port: u16,
)
    requires
        integrated(a, b, conns, now),
        port_total(a.port_state_map(), port) + requests_to(fresh_conns(conns, a.prev_codes()), port)
            <= u64::MAX,
    ensures
        ({
            let n = requests_to(fresh_conns(conns, a.prev_codes()), port);
            if b.port_map().contains_key(port) && b.port_map()[port] != 0 {
                &&& b.port_state_map().contains_key(port) <==> (a.port_state_map().contains_key(
                    port,
                ) || n > 0)
                &&& b.port_state_map().contains_key(port) ==> b.port_state_map()[port].total_requests
                    == port_total(a.port_state_map(), port) + n
            } else {
                &&& b.port_state_map().contains_key(port) == a.port_state_map().contains_key(port)
                &&& a.port_state_map().contains_key(port) ==> b.port_state_map()[port].total_requests
                    == a.port_state_map()[port].total_requests
            }
        }),
{
    let news = fresh_conns(conns, a.prev_codes());
    lemma_record_ports_count(a.port_state_map(), news, b.port_map(), now, port);
}

/// Each established connection that was not in the previous snapshot
/// counts one call on the edge between the two services it joins; an edge
/// with a call in this snapshot is shown, and an edge keeps its total
/// otherwise.
pub proof fn law_calls_counted(
    a: Analyzer,
    b: Analyzer,
    conns: Seq<SocketConn>,
    now: u64,
    k: (u32, u32),
)
    requires
        integrated(a, b, conns, now),
        edge_total(a.edge_map(), k) + calls_on(
            fresh_conns(conns, a.prev_codes()),
            map_of(inode_pairs(a.processes())),
            b.port_map(),
            k,
        ) <= u64::MAX,
    ensures
        ({
            let n = calls_on(
                fresh_conns(conns, a.prev_codes()),
                map_of(inode_pairs(a.processes())),
                b.port_map(),
                k,
            );
            &&& n > 0 ==> b.edge_map().contains_key(k)
            &&& b.edge_map().contains_key(k) ==> b.edge_map()[k].total_calls == edge_total(
                a.edge_map(),
                k,
            ) + n
            &&& b.edge_map().contains_key(k) ==> (a.edge_map().contains_key(k) || n > 0)
        }),
{
    let news = fresh_conns(conns, a.prev_codes());
    lemma_record_edges_count(
        a.edge_map(),
        news,
        map_of(inode_pairs(a.processes())),
        b.port_map(),
        now,
        k,
    );
}

/// A connection is counted once: taking in the same socket table again
/// adds no call to any edge and no request to any port, and makes no new
/// edge or port counter.
pub proof fn law_connection_counted_once(
    a: Analyzer,
    b: Analyzer,
    c: Analyzer,
    conns: Seq<SocketConn>,
    t1: u64,
    t2: u64,
)
    requires
        integrated(a, b, conns, t1),
        integrated(b, c, conns, t2),
    ensures
        forall|k: (u32, u32)| #[trigger]
            c.edge_map().contains_key(k) ==> b.edge_map().contains_key(k)
                && c.edge_map()[k].total_calls == b.edge_map()[k].total_calls,
        forall|p: u16| #[trigger]
            c.port_state_map().contains_key(p) == b.port_state_map().contains_key(p),
        forall|p: u16| #[trigger]
            c.port_state_map().contains_key(p) ==> c.port_state_map()[p].total_requests
                == b.port_state_map()[p].total_requests,
{
    assert forall|i: int|
        0 <= i < conns.len() && (#[trigger] conns[i]).state == ConnState::Established
            implies b.prev_codes().contains(conn_code(conns[i])) by {
        lemma_established_in_codes(conns, i);
    }
    lemma_nothing_fresh(conns, b.prev_codes());
    let news = fresh_conns(conns, b.prev_codes());
    let im = map_of(inode_pairs(b.processes()));
    assert(record_edges(b.edge_map(), news, im, c.port_map(), t2) == b.edge_map());
    assert(record_ports(b.port_state_map(), news, c.port_map(), t2) == b.port_state_map());
}

/// After a snapshot every edge shown was active within the edge lifetime.
pub proof fn law_idle_edges_dropped(a: Analyzer, b: Analyzer, conns: Seq<SocketConn>, now: u64)
    requires
        integrated(a, b, conns, now),
    ensures
        forall|k: (u32, u32)| #[trigger]
            b.edge_map().contains_key(k) ==> edge_alive(b.edge_map()[k], now),
{
}

/// The request log ends with the request just recorded and keeps the
/// newest requests, at most `HTTP_LOG_MAX` of them.
pub proof fn law_http_log_keeps_newest(a: Analyzer, b: Analyzer, entry: HttpEntry, now: u64)
    requires
        a.http_log().len() <= HTTP_LOG_MAX,
        recorded_http(a, b, entry, now),
    ensures
        b.http_log().len() == if a.http_log().len() < HTTP_LOG_MAX {
            a.http_log().len() + 1
        } else {
            HTTP_LOG_MAX as nat
        },
        b.http_log().last() == entry,
        b.http_log() == a.http_log().push(entry).skip(
            a.http_log().len() + 1 - b.http_log().len(),
        ),
{
    let full = a.http_log().push(entry);
    assert(b.http_log() == bounded_log(full));
    if full.len() <= HTTP_LOG_MAX {
        assert(full.skip(0) =~= full);
    }
}

/// A request counts once on its path, the part before any `?`; no other
/// path's total moves and no other path appears.
pub proof fn law_request_counted_on_path(a: Analyzer, b: Analyzer, entry: HttpEntry, now: u64)
    requires
        recorded_http(a, b, entry, now),
        a.path_map().contains_key(path_key(entry.path@)) ==> a.path_map()[path_key(
            entry.path@,
        )].total_calls < u64::MAX,
    ensures
        b.path_map().contains_key(path_key(entry.path@)),
        b.path_map()[path_key(entry.path@)].total_calls == if a.path_map().contains_key(
            path_key(entry.path@),
        ) {
            a.path_map()[path_key(entry.path@)].total_calls + 1
        } else {
            1
        },
        forall|k: Seq<char>|
            k != path_key(entry.path@) ==> (#[trigger] b.path_map().contains_key(k)
                == a.path_map().contains_key(k)),
        forall|k: Seq<char>|
            k != path_key(entry.path@) && #[trigger] a.path_map().contains_key(k)
                ==> b.path_map()[k].total_calls == a.path_map()[k].total_calls,
{
}

proof fn lemma_key_index_concat<V>(xs: Seq<(u16, V)>, ys: Seq<(u16, V)>, k: u16)
    requires
        key_index(ys, k) >= 0,
    ensures
        key_index(xs + ys, k) == xs.len() + key_index(ys, k),
    decreases ys.len(),
{
    let zs = xs + ys;
    if ys.last().0 != k {
        lemma_key_index_concat(xs, ys.drop_last(), k);
        assert(zs.drop_last() =~= xs + ys.drop_last());
    }
}

proof fn lemma_last_listen(conns: Seq<SocketConn>, im: Map<u64, u32>, i: int)
    requires
        0 <= i < conns.len(),
        conns[i].state == ConnState::Listen,
        im.contains_key(conns[i].inode),
        forall|j: int|
            i < j < conns.len() && (#[trigger] conns[j]).state == ConnState::Listen
                && conns[j].local_port == conns[i].local_port ==> !im.contains_key(conns[j].inode),
    ensures
        key_index(listen_pairs(conns, im), conns[i].local_port) >= 0,
        listen_pairs(conns, im)[key_index(listen_pairs(conns, im), conns[i].local_port)].1
            == im[conns[i].inode],
    decreases conns.len(),
{
    let rest = conns.drop_last();
    let lp = listen_pairs(rest, im);
    let port = conns[i].local_port;
    if i < conns.len() - 1 {
        assert(rest[i] == conns[i]);
        assert forall|j: int|
            i < j < rest.len() && (#[trigger] rest[j]).state == ConnState::Listen
                && rest[j].local_port == rest[i].local_port implies !im.contains_key(
            rest[j].inode,
        ) by {
            assert(rest[j] == conns[j]);
        }
        lemma_last_listen(rest, im, i);
        let c = conns.last();
        assert(c == conns[conns.len() - 1]);
        if c.state == ConnState::Listen && im.contains_key(c.inode) {
            assert(c.local_port != port);
            let full = lp.push((c.local_port, im[c.inode]));
            assert(full.drop_last() =~= lp);
            lemma_key_index(lp, port);
        }
    }
}

/// Socket ownership decides who listens on a port: when the socket table
/// has a listening socket on a port whose inode a process lists, and no
/// later listening socket on that port has a known owner, the port map
/// names that socket's owner, whatever the processes' own port lists say.
pub proof fn law_listening_socket_owner(
    a: Analyzer,
    b: Analyzer,
    conns: Seq<SocketConn>,
    now: u64,
    i: int,
)
    requires
        integrated(a, b, conns, now),
        0 <= i < conns.len(),
        conns[i].state == ConnState::Listen,
        map_of(inode_pairs(a.processes())).contains_key(conns[i].inode),
        forall|j: int|
            i < j < conns.len() && (#[trigger] conns[j]).state == ConnState::Listen
                && conns[j].local_port == conns[i].local_port ==> !map_of(
                inode_pairs(a.processes()),
            ).contains_key(conns[j].inode),
    ensures
        b.port_map().contains_key(conns[i].local_port),
        b.port_map()[conns[i].local_port] == map_of(inode_pairs(a.processes()))[conns[i].inode],
{
    let im = map_of(inode_pairs(a.processes()));
    let xs = port_pairs(a.processes());
    let ys = listen_pairs(conns, im);
    let port = conns[i].local_port;
    lemma_last_listen(conns, im, i);
    lemma_key_index_concat(xs, ys, port);
    lemma_key_index(xs + ys, port);
    assert((xs + ys)[xs.len() + key_index(ys, port)] == ys[key_index(ys, port)]);
}

/// The services shown are the processes of the last process snapshot, in
/// order: each under its name with the framework recognised, with the ports
/// it listed and those the socket table shows it listening on.
pub proof fn law_services_follow_processes(
    a: Analyzer,
    b: Analyzer,
    c: Analyzer,
    procs: Seq<ProcessInfo>,
    conns: Seq<SocketConn>,
    now: u64,
    s: GraphSnapshot,
    t: u64,
)
    requires
        took_processes(a, b, procs),
        integrated(b, c, conns, now),
        snapshot_matches(s, c, t),
    ensures
        s.services@.len() == procs.len(),
        forall|i: int|
            0 <= i < procs.len() ==> {
                let svc = #[trigger] s.services@[i];
                let p = procs[i];
                &&& svc.pid == p.pid
                &&& svc.name@ == enriched_name(p)
                &&& svc.runtime == p.runtime
                &&& svc.script == p.script
                &&& svc.cwd == p.cwd
                &&& svc.ports@ == ports_with_listens(
                    p.ports@,
                    conns,
                    map_of(inode_pairs(b.processes())),
                    b.processes(),
                    i,
                )
            },
{
    assert forall|i: int| 0 <= i < procs.len() implies {
        let svc = #[trigger] s.services@[i];
        let p = procs[i];
        &&& svc.pid == p.pid
        &&& svc.name@ == enriched_name(p)
        &&& svc.runtime == p.runtime
        &&& svc.script == p.script
        &&& svc.cwd == p.cwd
        &&& svc.ports@ == ports_with_listens(
            p.ports@,
            conns,
            map_of(inode_pairs(b.processes())),
            b.processes(),
            i,
        )
    } by {
        let q = b.processes()[i];
        assert(q.ports == procs[i].ports);
        assert(crate::analyzer::service_matches(s.services@[i], c.processes()[i]));
    }
}

/// Event times in time order, none later than `t`.
pub open spec fn timed_upto(r: Seq<u64>, t: u64) -> bool {
    &&& time_ordered(r)
    &&& forall|i: int| 0 <= i < r.len() ==> r[i] <= t
}

/// Every event lies in the rate window ending at `now`.
pub open spec fn in_window(r: Seq<u64>, now: u64) -> bool {
    forall|i: int| 0 <= i < r.len() ==> r[i] >= now - RATE_WINDOW_MS
}

/// The recent events of every edge, port and path are in time order and
/// none is later than `t`.
pub open spec fn events_timed(a: Analyzer, t: u64) -> bool {
    &&& forall|k: (u32, u32)| #[trigger]
        a.edge_map().contains_key(k) ==> timed_upto(a.edge_map()[k].recent, t)
    &&& forall|k: u16| #[trigger]
        a.port_state_map().contains_key(k) ==> timed_upto(a.port_state_map()[k].recent, t)
    &&& forall|k: Seq<char>| #[trigger]
        a.path_map().contains_key(k) ==> timed_upto(a.path_map()[k].recent, t)
}

proof fn lemma_timed_later(r: Seq<u64>, t: u64, later: u64)
    requires
        timed_upto(r, t),
        t <= later,
    ensures
        timed_upto(r, later),
{
}

proof fn lemma_push_timed(r: Seq<u64>, now: u64)
    requires
        timed_upto(r, now),
    ensures
        timed_upto(r.push(now), now),
{
    law_time_order_kept(r, now, now);
    let p = r.push(now);
    assert forall|i: int| 0 <= i < p.len() implies p[i] <= now by {
        if i < r.len() {
            assert(p[i] == r[i]);
        }
    }
}

proof fn lemma_evict_timed(r: Seq<u64>, now: u64)
    requires
        timed_upto(r, now),
    ensures
        timed_upto(evicted(r, now), now),
        in_window(evicted(r, now), now),
{
    law_time_order_kept(r, now, now);
    law_evicted_window(r, now);
    let e = evicted(r, now);
    let d = r.len() - e.len();
    assert forall|i: int| 0 <= i < e.len() implies e[i] <= now && e[i] >= now - RATE_WINDOW_MS by {
        assert(e[i] == r[d + i]);
        assert(e.contains(e[i]));
    }
}

proof fn lemma_record_edges_timed(
    edges: Map<(u32, u32), EdgeModel>,
    news: Seq<SocketConn>,
    inodes: Map<u64, u32>,
    ports: Map<u16, u32>,
    now: u64,
)
    requires
        forall|k: (u32, u32)| #[trigger] edges.contains_key(k) ==> timed_upto(edges[k].recent, now),
    ensures
        forall|k: (u32, u32)| #[trigger]
            record_edges(edges, news, inodes, ports, now).contains_key(k) ==> timed_upto(
                record_edges(edges, news, inodes, ports, now)[k].recent,
                now,
            ),
    decreases news.len(),
{
    if news.len() > 0 {
        lemma_record_edges_timed(edges, news.drop_last(), inodes, ports, now);
        let e1 = record_edges(edges, news.drop_last(), inodes, ports, now);
        match edge_key_of(news.last(), inodes, ports) {
            Some(k) => {
                if e1.contains_key(k) {
                    lemma_push_timed(e1[k].recent, now);
                }
            },
            None => {},
        }
    }
}

proof fn lemma_record_ports_timed(
    states: Map<u16, PortModel>,
    news: Seq<SocketConn>,
    ports: Map<u16, u32>,
    now: u64,
)
    requires
        forall|k: u16| #[trigger] states.contains_key(k) ==> timed_upto(states[k].recent, now),
    ensures
        forall|k: u16| #[trigger]
            record_ports(states, news, ports, now).contains_key(k) ==> timed_upto(
                record_ports(states, news, ports, now)[k].recent,
                now,
            ),
    decreases news.len(),
{
    if news.len() > 0 {
        lemma_record_ports_timed(states, news.drop_last(), ports, now);
        let p1 = record_ports(states, news.drop_last(), ports, now);
        let c = news.last();
        if p1.contains_key(c.local_port) {
            lemma_push_timed(p1[c.local_port].recent, now);
        }
    }
}

/// A new analyzer has no events, so its events are timed from the start.
pub proof fn law_events_timed_at_start(a: Analyzer)
    requires
        a.edge_map() == Map::<(u32, u32), EdgeModel>::empty(),
        a.port_state_map() == Map::<u16, PortModel>::empty(),
        a.path_map() == Map::<Seq<char>, crate::analyzer::state::PathModel>::empty(),
    ensures
        events_timed(a, 0),
{
}

/// The rate window across snapshots: when time does not go back (the
/// events so far are timed no later than `now`), a connection snapshot
/// keeps all recent events in time order and leaves on every edge and port
/// only events of the rate window ending at `now`.
pub proof fn law_snapshot_keeps_rate_window(
    a: Analyzer,
    b: Analyzer,
    conns: Seq<SocketConn>,
    t: u64,
    now: u64,
)
    requires
        events_timed(a, t),
        t <= now,
        integrated(a, b, conns, now),
    ensures
        events_timed(b, now),
        forall|k: (u32, u32)| #[trigger]
            b.edge_map().contains_key(k) ==> in_window(b.edge_map()[k].recent, now),
        forall|k: u16| #[trigger]
            b.port_state_map().contains_key(k) ==> in_window(b.port_state_map()[k].recent, now),
{
    let procs = a.processes();
    let im = map_of(inode_pairs(procs));
    let m2 = b.port_map();
    let news = fresh_conns(conns, a.prev_codes());
    assert forall|k: (u32, u32)| #[trigger] a.edge_map().contains_key(k) implies timed_upto(
        a.edge_map()[k].recent,
        now,
    ) by {
        lemma_timed_later(a.edge_map()[k].recent, t, now);
    }
    assert forall|k: u16| #[trigger] a.port_state_map().contains_key(k) implies timed_upto(
        a.port_state_map()[k].recent,
        now,
    ) by {
        lemma_timed_later(a.port_state_map()[k].recent, t, now);
    }
    lemma_record_edges_timed(a.edge_map(), news, im, m2, now);
    lemma_record_ports_timed(a.port_state_map(), news, m2, now);
    let e1 = record_edges(a.edge_map(), news, im, m2, now);
    let p1 = record_ports(a.port_state_map(), news, m2, now);
    assert forall|k: (u32, u32)| #[trigger] b.edge_map().contains_key(k) implies timed_upto(
        b.edge_map()[k].recent,
        now,
    ) && in_window(b.edge_map()[k].recent, now) by {
        lemma_evict_timed(e1[k].recent, now);
    }
    assert forall|k: u16| #[trigger] b.port_state_map().contains_key(k) implies timed_upto(
        b.port_state_map()[k].recent,
        now,
    ) && in_window(b.port_state_map()[k].recent, now) by {
        lemma_evict_timed(p1[k].recent, now);
    }
    assert forall|k: Seq<char>| #[trigger] b.path_map().contains_key(k) implies timed_upto(
        b.path_map()[k].recent,
        now,
    ) by {
        lemma_timed_later(a.path_map()[k].recent, t, now);
    }
}

/// The rate window across requests: when time does not go back, recording
/// a tap request keeps all recent events in time order and leaves on every
/// path only events of the rate window ending at `now`.
pub proof fn law_request_keeps_rate_window(
    a: Analyzer,
    b: Analyzer,
    entry: HttpEntry,
    t: u64,
    now: u64,
)
    requires
        events_timed(a, t),
        t <= now,
        recorded_http(a, b, entry, now),
    ensures
        events_timed(b, now),
        forall|k: Seq<char>| #[trigger]
            b.path_map().contains_key(k) ==> in_window(b.path_map()[k].recent, now),
{
    let key = path_key(entry.path@);
    let p1 = a.path_map().insert(
        key,
        crate::analyzer::recorded_path(
            if a.path_map().contains_key(key) {
                Some(a.path_map()[key])
            } else {
                None
            },
            entry.status,
            entry.duration_ms,
            now,
        ),
    );
    assert forall|k: Seq<char>| #[trigger] p1.contains_key(k) implies timed_upto(p1[k].recent, now) by {
        if k == key {
            if a.path_map().contains_key(key) {
                lemma_timed_later(a.path_map()[key].recent, t, now);
                lemma_push_timed(a.path_map()[key].recent, now);
            }
        } else {
            lemma_timed_later(a.path_map()[k].recent, t, now);
        }
    }
    assert forall|k: Seq<char>| #[trigger] b.path_map().contains_key(k) implies timed_upto(
        b.path_map()[k].recent,
        now,
    ) && in_window(b.path_map()[k].recent, now) by {
        lemma_evict_timed(p1[k].recent, now);
    }
    assert forall|k: (u32, u32)| #[trigger] b.edge_map().contains_key(k) implies timed_upto(
        b.edge_map()[k].recent,
        now,
    ) by {
        lemma_timed_later(a.edge_map()[k].recent, t, now);
    }
    assert forall|k: u16| #[trigger] b.port_state_map().contains_key(k) implies timed_upto(
        b.port_state_map()[k].recent,
        now,
    ) by {
        lemma_timed_later(a.port_state_map()[k].recent, t, now);
    }
}

/// The connections of a table that are open on local port `port`: in the
/// Established state, with that local port.
pub open spec fn open_on(conns: Seq<SocketConn>, port: u16) -> Seq<SocketConn> {
    conns.filter(|c: SocketConn| c.state == ConnState::Established && c.local_port == port)
}

proof fn lemma_count_is_open_on(conns: Seq<SocketConn>, port: u16)
    ensures
        count_established(conns, port) == open_on(conns, port).len(),
    decreases conns.len(),
{
    reveal(Seq::filter);
    if conns.len() > 0 {
        lemma_count_is_open_on(conns.drop_last(), port);
        assert(open_on(conns.drop_last(), port) == conns.drop_last().filter(
            |c: SocketConn| c.state == ConnState::Established && c.local_port == port,
        ));
    }
}

/// After a snapshot, a port's count of open connections is the number of
/// connections in the table that are Established with that port as local
/// port (none when no process is known to listen on it): a listening,
/// TIME_WAIT, CLOSE_WAIT or other socket never adds to it, nor does an
/// established connection on another local port.
pub proof fn law_active_connections(
    a: Analyzer,
    b: Analyzer,
    conns: Seq<SocketConn>,
    now: u64,
    port: u16,
)
    requires
        integrated(a, b, conns, now),
        b.port_state_map().contains_key(port),
        conns.len() <= u64::MAX,
    ensures
        b.port_state_map()[port].active_connections == if b.port_map().contains_key(port) {
            open_on(conns, port).len()
        } else {
            0
        },
        forall|i: int|
            0 <= i < open_on(conns, port).len() ==> (#[trigger] open_on(conns, port)[i]).state
                == ConnState::Established && open_on(conns, port)[i].local_port == port,
{
    lemma_count_is_open_on(conns, port);
    crate::analyzer::connections::lemma_count_established_bound(conns, port);
    assert forall|i: int| 0 <= i < open_on(conns, port).len() implies (#[trigger] open_on(
        conns,
        port,
    )[i]).state == ConnState::Established && open_on(conns, port)[i].local_port == port by {
        conns.lemma_filter_pred(
            |c: SocketConn| c.state == ConnState::Established && c.local_port == port,
            i,
        );
    }
}

} // verus!
