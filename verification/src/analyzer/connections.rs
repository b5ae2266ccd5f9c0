//! The steps by which one snapshot of the socket table updates the graph:
//! which process owns which port, which connections are new, and the calls
//! and inbound requests they count for.

use vstd::prelude::*;
use crate::analyzer::state::{
    evicted, EdgeModel, EdgeState, PortModel, PortState, EDGE_TTL_MS,
};
use crate::analyzer::table::{
    find_pair, find_u16, find_u64, kept_entries, key_index, lemma_kept_entries, lemma_key_index,
    lemma_pointwise, lemma_push_new,
    lemma_same_keys_any, lemma_update_value, map_of, unique_keys,
};
use crate::collector::process::ProcessInfo;
use crate::collector::socket::{ConnState, SocketConn};
use std::collections::HashSet;

verus! {

/// `(port, pid)` for every port that the processes list, in order.
pub open spec fn port_pairs(procs: Seq<ProcessInfo>) -> Seq<(u16, u32)>
    decreases procs.len(),
{
    if procs.len() == 0 {
        seq![]
    } else {
        let p = procs.last();
        port_pairs(procs.drop_last()) + p.ports@.map_values(|port: u16| (port, p.pid))
    }
}

/// `(inode, pid)` for every socket inode that the processes list, in order.
pub open spec fn inode_pairs(procs: Seq<ProcessInfo>) -> Seq<(u64, u32)>
    decreases procs.len(),
{
    if procs.len() == 0 {
        seq![]
    } else {
        let p = procs.last();
        inode_pairs(procs.drop_last()) + p.socket_inodes@.map_values(|i: u64| (i, p.pid))
    }
}

pub fn port_pairs_of(procs: &Vec<ProcessInfo>) -> (res: Vec<(u16, u32)>)
    ensures
        res@ == port_pairs(procs@),
{
    let mut res: Vec<(u16, u32)> = Vec::new();
    let mut i: usize = 0;
    while i < procs.len()
        invariant
            i <= procs@.len(),
            res@ == port_pairs(procs@.take(i as int)),
        decreases procs.len() - i,
    {
        let p = &procs[i];
        let ghost base = res@;
        let mut j: usize = 0;
        while j < p.ports.len()
            invariant
                j <= p.ports@.len(),
                *p == procs@[i as int],
                res@ == base + p.ports@.take(j as int).map_values(|port: u16| (port, p.pid)),
            decreases p.ports.len() - j,
        {
            res.push((p.ports[j], p.pid));
            j = j + 1;
            assert(res@ =~= base + p.ports@.take(j as int).map_values(|port: u16| (port, p.pid)));
        }
        assert(p.ports@.take(j as int) =~= p.ports@);
        assert(procs@.take(i + 1).drop_last() =~= procs@.take(i as int));
        i = i + 1;
    }
    assert(procs@.take(i as int) =~= procs@);
    res
}

pub fn inode_pair_list(procs: &Vec<ProcessInfo>) -> (res: Vec<(u64, u32)>)
    ensures
        res@ == inode_pairs(procs@),
{
    let mut res: Vec<(u64, u32)> = Vec::new();
    let mut i: usize = 0;
    while i < procs.len()
        invariant
            i <= procs@.len(),
            res@ == inode_pairs(procs@.take(i as int)),
        decreases procs.len() - i,
    {
        let p = &procs[i];
        let ghost base = res@;
        let mut j: usize = 0;
        while j < p.socket_inodes.len()
            invariant
                j <= p.socket_inodes@.len(),
                *p == procs@[i as int],
                res@ == base + p.socket_inodes@.take(j as int).map_values(|x: u64| (x, p.pid)),
            decreases p.socket_inodes.len() - j,
        {
            res.push((p.socket_inodes[j], p.pid));
            j = j + 1;
            assert(res@ =~= base + p.socket_inodes@.take(j as int).map_values(
                |x: u64| (x, p.pid),
            ));
        }
        assert(p.socket_inodes@.take(j as int) =~= p.socket_inodes@);
        assert(procs@.take(i + 1).drop_last() =~= procs@.take(i as int));
        i = i + 1;
    }
    assert(procs@.take(i as int) =~= procs@);
    res
}

/// `(port, pid)` for each listening socket whose inode a process owns, in
/// order: the kernel's own word on who listens where.
pub open spec fn listen_pairs(conns: Seq<SocketConn>, inodes: Map<u64, u32>) -> Seq<(u16, u32)>
    decreases conns.len(),
{
    if conns.len() == 0 {
        seq![]
    } else {
        let c = conns.last();
        let rest = listen_pairs(conns.drop_last(), inodes);
        if c.state == ConnState::Listen && inodes.contains_key(c.inode) {
            rest.push((c.local_port, inodes[c.inode]))
        } else {
            rest
        }
    }
}

/// Index of the first process with pid `pid`, or -1.
pub open spec fn first_with_pid(procs: Seq<ProcessInfo>, pid: u32) -> int
    decreases procs.len(),
{
    if procs.len() == 0 {
        -1
    } else if procs[0].pid == pid {
        0
    } else {
        let r = first_with_pid(procs.skip(1), pid);
        if r < 0 {
            -1
        } else {
            r + 1
        }
    }
}

/// The ports of process `i` once the listening sockets of `conns` that it
/// owns are added: each port not yet listed is appended, in order. A
/// socket goes to the first process with the owning pid.
pub open spec fn ports_with_listens(
    ports: Seq<u16>,
    conns: Seq<SocketConn>,
    inodes: Map<u64, u32>,
    procs: Seq<ProcessInfo>,
    i: int,
) -> Seq<u16>
    decreases conns.len(),
{
    if conns.len() == 0 {
        ports
    } else {
        let c = conns.last();
        let rest = ports_with_listens(ports, conns.drop_last(), inodes, procs, i);
        if c.state == ConnState::Listen && inodes.contains_key(c.inode) && first_with_pid(
            procs,
            inodes[c.inode],
        ) == i && !rest.contains(c.local_port) {
            rest.push(c.local_port)
        } else {
            rest
        }
    }
}


pub proof fn lemma_first_with_pid(procs: Seq<ProcessInfo>, pid: u32, j: int)
    requires
        0 <= j <= procs.len(),
        forall|k: int| 0 <= k < j ==> #[trigger] procs[k].pid != pid,
        j == procs.len() || procs[j].pid == pid,
    ensures
        first_with_pid(procs, pid) == if j == procs.len() {
            -1
        } else {
            j
        },
    decreases j,
{
    if j > 0 {
        let t = procs.skip(1);
        assert forall|k: int| 0 <= k < j - 1 implies #[trigger] t[k].pid != pid by {
            assert(t[k] == procs[k + 1]);
        }
        if j < procs.len() {
            assert(t[j - 1] == procs[j]);
        }
        lemma_first_with_pid(t, pid, j - 1);
    }
}

/// Lists with the same pids in the same places have the same first
/// process for every pid.
pub proof fn lemma_same_pids(a: Seq<ProcessInfo>, b: Seq<ProcessInfo>, pid: u32)
    requires
        a.len() == b.len(),
        forall|i: int| 0 <= i < a.len() ==> #[trigger] a[i].pid == b[i].pid,
    ensures
        first_with_pid(a, pid) == first_with_pid(b, pid),
    decreases a.len(),
{
    if a.len() > 0 {
        assert(a[0].pid == b[0].pid);
        let a1 = a.skip(1);
        let b1 = b.skip(1);
        assert forall|i: int| 0 <= i < a1.len() implies #[trigger] a1[i].pid == b1[i].pid by {
            assert(a[i + 1].pid == b[i + 1].pid);
        }
        lemma_same_pids(a1, b1, pid);
    }
}

fn ports_contain(ports: &Vec<u16>, port: u16) -> (b: bool)
    ensures
        b == ports@.contains(port),
{
    let mut k: usize = 0;
    while k < ports.len()
        invariant
            k <= ports@.len(),
            forall|m: int| 0 <= m < k ==> ports@[m] != port,
        decreases ports.len() - k,
    {
        if ports[k] == port {
            assert(ports@[k as int] == port);
            return true;
        }
        k = k + 1;
    }
    false
}

/// Index of the first process with pid `pid`.
fn find_first_pid(procs: &Vec<ProcessInfo>, pid: u32) -> (r: Option<usize>)
    ensures
        match r {
            Some(j) => j as int == first_with_pid(procs@, pid) && j < procs@.len(),
            None => first_with_pid(procs@, pid) == -1,
        },
{
    let mut j: usize = 0;
    while j < procs.len() && procs[j].pid != pid
        invariant
            j <= procs@.len(),
            forall|k: int| 0 <= k < j ==> #[trigger] procs@[k].pid != pid,
        decreases procs.len() - j,
    {
        j = j + 1;
    }
    proof {
        lemma_first_with_pid(procs@, pid, j as int);
    }
    if j < procs.len() {
        Some(j)
    } else {
        None
    }
}

/// The processes and the port map after the listening sockets of `conns`
/// are taken in: each socket whose inode a process owns maps its port to
/// that process, and the first process with that pid lists the port.
pub fn apply_listening(
    procs: &mut Vec<ProcessInfo>,
    pairs: &mut Vec<(u16, u32)>,
    conns: &Vec<SocketConn>,
    inodes: &Vec<(u64, u32)>,
)
    ensures
        final(pairs)@ == old(pairs)@ + listen_pairs(conns@, map_of(inodes@)),
        final(procs)@.len() == old(procs)@.len(),
        forall|i: int|
            0 <= i < old(procs)@.len() ==> {
                let p = #[trigger] old(procs)@[i];
                let q = final(procs)@[i];
                &&& q.ports@ == ports_with_listens(
                    p.ports@,
                    conns@,
                    map_of(inodes@),
                    old(procs)@,
                    i,
                )
                &&& q.pid == p.pid
                &&& q.name == p.name
                &&& q.runtime == p.runtime
                &&& q.script == p.script
                &&& q.cwd == p.cwd
                &&& q.service_name == p.service_name
                &&& q.socket_inodes == p.socket_inodes
            },
{
    let ghost m = map_of(inodes@);
    let ghost procs0 = procs@;
    let mut c: usize = 0;
    while c < conns.len()
        invariant
            c <= conns@.len(),
            m == map_of(inodes@),
            procs0 == old(procs)@,
            pairs@ == old(pairs)@ + listen_pairs(conns@.take(c as int), m),
            procs@.len() == procs0.len(),
            forall|i: int|
                0 <= i < procs0.len() ==> {
                    let p = #[trigger] procs0[i];
                    let q = procs@[i];
                    &&& q.ports@ == ports_with_listens(p.ports@, conns@.take(c as int), m, procs0, i)
                    &&& q.pid == p.pid
                    &&& q.name == p.name
                    &&& q.runtime == p.runtime
                    &&& q.script == p.script
                    &&& q.cwd == p.cwd
                    &&& q.service_name == p.service_name
                    &&& q.socket_inodes == p.socket_inodes
                },
        decreases conns.len() - c,
    {
        let ghost pre = conns@.take(c as int);
        let ghost next = conns@.take(c + 1);
        assert(next.drop_last() =~= pre);
        assert(next.last() == conns@[c as int]);
        let conn = conns[c];
        let ghost before = procs@;
        if conn.is_listen() {
            match crate::analyzer::table::find_u64(inodes, conn.inode) {
                Some(ix) => {
                    proof {
                        lemma_key_index(inodes@, conn.inode);
                    }
                    let pid = inodes[ix].1;
                    pairs.push((conn.local_port, pid));
                    let first = find_first_pid(procs, pid);
                    proof {
                        lemma_same_pids(procs0, procs@, pid);
                    }
                    match first {
                        Some(j) => {
                            if !ports_contain(&procs[j].ports, conn.local_port) {
                                procs[j].ports.push(conn.local_port);
                            }
                        },
                        None => {},
                    }
                },
                None => {
                    proof {
                        lemma_key_index(inodes@, conn.inode);
                    }
                },
            }
        } else {
        }
        proof {
            assert(pairs@ =~= old(pairs)@ + listen_pairs(next, m));
            assert forall|i: int| 0 <= i < procs0.len() implies {
                let p = #[trigger] procs0[i];
                let q = procs@[i];
                &&& q.ports@ == ports_with_listens(p.ports@, next, m, procs0, i)
                &&& q.pid == p.pid
                &&& q.name == p.name
                &&& q.runtime == p.runtime
                &&& q.script == p.script
                &&& q.cwd == p.cwd
                &&& q.service_name == p.service_name
                &&& q.socket_inodes == p.socket_inodes
            } by {
                assert(before[i].ports@ == ports_with_listens(procs0[i].ports@, pre, m, procs0, i));
            }
        }
        c = c + 1;
    }
    assert(conns@.take(c as int) =~= conns@);
}


/// The edge table as a list of keys with counter values.
pub open spec fn edge_models(s: Seq<((u32, u32), EdgeState)>) -> Seq<((u32, u32), EdgeModel)> {
    s.map_values(|e: ((u32, u32), EdgeState)| (e.0, e.1@))
}

/// The port table as a list of keys with counter values.
pub open spec fn port_models(s: Seq<(u16, PortState)>) -> Seq<(u16, PortModel)> {
    s.map_values(|e: (u16, PortState)| (e.0, e.1@))
}

/// The edge a new connection counts a call for: from the process that owns
/// its socket (else the one listening on its local port) to the one
/// listening on its remote port, when both are known, differ, and neither
/// pid is 0.
pub open spec fn edge_key_of(c: SocketConn, inodes: Map<u64, u32>, ports: Map<u16, u32>) -> Option<
    (u32, u32),
> {
    let src: Option<u32> = if inodes.contains_key(c.inode) {
        Some(inodes[c.inode])
    } else if ports.contains_key(c.local_port) {
        Some(ports[c.local_port])
    } else {
        None
    };
    let dst: Option<u32> = if ports.contains_key(c.remote_port) {
        Some(ports[c.remote_port])
    } else {
        None
    };
    match (src, dst) {
        (Some(s), Some(d)) => if s != d && s != 0 && d != 0 {
            Some((s, d))
        } else {
            None
        },
        _ => None,
    }
}

/// An edge after one more call at `now` (a fresh edge when there was none).
pub open spec fn recorded_edge(e: Option<EdgeModel>, now: u64) -> EdgeModel {
    match e {
        Some(m) => EdgeModel {
            total_calls: (m.total_calls + 1) as u64,
            recent: m.recent.push(now),
            last_seen: now,
            first_seen: m.first_seen,
        },
        None => EdgeModel { total_calls: 1, recent: seq![now], last_seen: now, first_seen: now },
    }
}

/// The edges after each new connection in `news` counts its call, in order.
pub open spec fn record_edges(
    edges: Map<(u32, u32), EdgeModel>,
    news: Seq<SocketConn>,
    inodes: Map<u64, u32>,
    ports: Map<u16, u32>,
    now: u64,
) -> Map<(u32, u32), EdgeModel>
    decreases news.len(),
{
    if news.len() == 0 {
        edges
    } else {
        let e1 = record_edges(edges, news.drop_last(), inodes, ports, now);
        match edge_key_of(news.last(), inodes, ports) {
            Some(k) => e1.insert(
                k,
                recorded_edge(
                    if e1.contains_key(k) {
                        Some(e1[k])
                    } else {
                        None
                    },
                    now,
                ),
            ),
            None => e1,
        }
    }
}

/// A port after one more inbound request at `now`; a fresh port takes
/// `pid`, a known one keeps its own.
pub open spec fn recorded_port(p: Option<PortModel>, pid: u32, now: u64) -> PortModel {
    match p {
        Some(m) => PortModel {
            pid: m.pid,
            total_requests: (m.total_requests + 1) as u64,
            recent: m.recent.push(now),
            last_seen: now,
            active_connections: m.active_connections,
        },
        None => PortModel {
            pid,
            total_requests: 1,
            recent: seq![now],
            last_seen: now,
            active_connections: 0,
        },
    }
}

/// The ports after each new connection in `news` to a port that a process
/// (other than pid 0) listens on counts one inbound request, in order.
pub open spec fn record_ports(
    states: Map<u16, PortModel>,
    news: Seq<SocketConn>,
    ports: Map<u16, u32>,
    now: u64,
) -> Map<u16, PortModel>
    decreases news.len(),
{
    if news.len() == 0 {
        states
    } else {
        let p1 = record_ports(states, news.drop_last(), ports, now);
        let c = news.last();
        if ports.contains_key(c.local_port) && ports[c.local_port] != 0 {
            p1.insert(
                c.local_port,
                recorded_port(
                    if p1.contains_key(c.local_port) {
                        Some(p1[c.local_port])
                    } else {
                        None
                    },
                    ports[c.local_port],
                    now,
                ),
            )
        } else {
            p1
        }
    }
}

fn lookup_u16(pairs: &Vec<(u16, u32)>, k: u16) -> (r: Option<u32>)
    ensures
        match r {
            Some(v) => map_of(pairs@).contains_key(k) && map_of(pairs@)[k] == v,
            None => !map_of(pairs@).contains_key(k),
        },
{
    proof {
        lemma_key_index(pairs@, k);
    }
    match find_u16(pairs, k) {
        Some(ix) => Some(pairs[ix].1),
        None => None,
    }
}

fn lookup_u64(pairs: &Vec<(u64, u32)>, k: u64) -> (r: Option<u32>)
    ensures
        match r {
            Some(v) => map_of(pairs@).contains_key(k) && map_of(pairs@)[k] == v,
            None => !map_of(pairs@).contains_key(k),
        },
{
    proof {
        lemma_key_index(pairs@, k);
    }
    match find_u64(pairs, k) {
        Some(ix) => Some(pairs[ix].1),
        None => None,
    }
}

/// The edge a new connection counts a call for (see `edge_key_of`).
pub fn edge_key(c: &SocketConn, inodes: &Vec<(u64, u32)>, pmap: &Vec<(u16, u32)>) -> (r: Option<
    (u32, u32),
>)
    ensures
        r == edge_key_of(*c, map_of(inodes@), map_of(pmap@)),
{
    let src = match lookup_u64(inodes, c.inode) {
        Some(p) => Some(p),
        None => lookup_u16(pmap, c.local_port),
    };
    let dst = lookup_u16(pmap, c.remote_port);
    match (src, dst) {
        (Some(s), Some(d)) => if s != d && s != 0 && d != 0 {
            Some((s, d))
        } else {
            None
        },
        _ => None,
    }
}

/// Counts the calls and inbound requests of the new connections `news`.
pub fn record_new_connections(
    edges: &mut Vec<((u32, u32), EdgeState)>,
    port_states: &mut Vec<(u16, PortState)>,
    news: &Vec<SocketConn>,
    inodes: &Vec<(u64, u32)>,
    pmap: &Vec<(u16, u32)>,
    now: u64,
)
    requires
        unique_keys(edge_models(old(edges)@)),
        unique_keys(port_models(old(port_states)@)),
        forall|i: int|
            0 <= i < old(edges)@.len() ==> (#[trigger] old(edges)@[i]).1.total_calls + news@.len()
                <= u64::MAX,
        forall|i: int|
            0 <= i < old(port_states)@.len() ==> (#[trigger] old(port_states)@[i]).1.total_requests
                + news@.len() <= u64::MAX,
    ensures
        unique_keys(edge_models(final(edges)@)),
        unique_keys(port_models(final(port_states)@)),
        map_of(edge_models(final(edges)@)) == record_edges(
            map_of(edge_models(old(edges)@)),
            news@,
            map_of(inodes@),
            map_of(pmap@),
            now,
        ),
        map_of(port_models(final(port_states)@)) == record_ports(
            map_of(port_models(old(port_states)@)),
            news@,
            map_of(pmap@),
            now,
        ),
{
    let ghost im = map_of(inodes@);
    let ghost pm = map_of(pmap@);
    let ghost e0 = map_of(edge_models(edges@));
    let ghost p0 = map_of(port_models(port_states@));
    let ghost n = news@.len();
    let mut i: usize = 0;
    while i < news.len()
        invariant
            i <= news@.len(),
            n == news@.len(),
            im == map_of(inodes@),
            pm == map_of(pmap@),
            e0 == map_of(edge_models(old(edges)@)),
            p0 == map_of(port_models(old(port_states)@)),
            unique_keys(edge_models(edges@)),
            unique_keys(port_models(port_states@)),
            map_of(edge_models(edges@)) == record_edges(e0, news@.take(i as int), im, pm, now),
            map_of(port_models(port_states@)) == record_ports(p0, news@.take(i as int), pm, now),
            forall|j: int|
                0 <= j < edges@.len() ==> (#[trigger] edges@[j]).1.total_calls + n <= u64::MAX + i,
            forall|j: int|
                0 <= j < port_states@.len() ==> (#[trigger] port_states@[j]).1.total_requests + n
                    <= u64::MAX + i,
        decreases news.len() - i,
    {
        let ghost pre = news@.take(i as int);
        let ghost next = news@.take(i + 1);
        assert(next.drop_last() =~= pre);
        assert(next.last() == news@[i as int]);
        let c = news[i];
        let ghost e1 = record_edges(e0, pre, im, pm, now);
        let ghost p1 = record_ports(p0, pre, pm, now);
        assert(record_edges(e0, next, im, pm, now) == match edge_key_of(c, im, pm) {
            Some(k) => e1.insert(
                k,
                recorded_edge(
                    if e1.contains_key(k) {
                        Some(e1[k])
                    } else {
                        None
                    },
                    now,
                ),
            ),
            None => e1,
        });
        assert(record_ports(p0, next, pm, now) == if pm.contains_key(c.local_port)
            && pm[c.local_port] != 0 {
            p1.insert(
                c.local_port,
                recorded_port(
                    if p1.contains_key(c.local_port) {
                        Some(p1[c.local_port])
                    } else {
                        None
                    },
                    pm[c.local_port],
                    now,
                ),
            )
        } else {
            p1
        });
        // service-to-service edge
        let ghost em = edge_models(edges@);
        match edge_key(&c, inodes, pmap) {
            Some(key) => {
                proof {
                    assert forall|j: int| 0 <= j < edges@.len() implies #[trigger] edges@[j].0
                        == em[j].0 by {}
                    lemma_same_keys_any(edges@, em, key);
                    lemma_key_index(em, key);
                }
                match find_pair(edges, key) {
                    Some(ix) => {
                        let ghost old_entry = edges@[ix as int];
                        edges[ix].1.record_call(now);
                        proof {
                            assert(em[ix as int].1 == old_entry.1@);
                            assert(e1[key] == old_entry.1@);
                            assert(edges@[ix as int].1@ == recorded_edge(Some(e1[key]), now));
                            lemma_update_value(em, ix as int, edges@[ix as int].1@);
                            assert(edge_models(edges@) =~= em.update(
                                ix as int,
                                (em[ix as int].0, edges@[ix as int].1@),
                            ));
                        }
                    },
                    None => {
                        let mut st = EdgeState::new(now);
                        st.record_call(now);
                        assert(st.recent@ =~= seq![now]);
                        assert(st@ == recorded_edge(None, now));
                        proof {
                            lemma_push_new(em, key, st@);
                        }
                        edges.push((key, st));
                        assert(edge_models(edges@) =~= em.push((key, st@)));
                    },
                }
            },
            None => {},
        }
        assert(map_of(edge_models(edges@)) =~= record_edges(e0, next, im, pm, now));
        // inbound request on a listening port
        let ghost psm = port_models(port_states@);
        match lookup_u16(pmap, c.local_port) {
            Some(pid) => {
                if pid != 0 {
                    proof {
                        assert forall|j: int| 0 <= j < port_states@.len() implies #[trigger] port_states@[j].0
                            == psm[j].0 by {}
                        lemma_same_keys_any(port_states@, psm, c.local_port);
                        lemma_key_index(psm, c.local_port);
                    }
                    match find_u16(port_states, c.local_port) {
                        Some(jx) => {
                            let ghost old_p = port_states@[jx as int];
                            port_states[jx].1.record_request(now);
                            proof {
                                assert(psm[jx as int].1 == old_p.1@);
                                assert(p1[c.local_port] == old_p.1@);
                                assert(port_states@[jx as int].1@ == recorded_port(
                                    Some(p1[c.local_port]),
                                    pid,
                                    now,
                                ));
                                lemma_update_value(psm, jx as int, port_states@[jx as int].1@);
                                assert(port_models(port_states@) =~= psm.update(
                                    jx as int,
                                    (psm[jx as int].0, port_states@[jx as int].1@),
                                ));
                            }
                        },
                        None => {
                            let mut st = PortState::new(pid, now);
                            st.record_request(now);
                            assert(st.recent@ =~= seq![now]);
                            assert(st@ == recorded_port(None, pid, now));
                            proof {
                                lemma_push_new(psm, c.local_port, st@);
                            }
                            port_states.push((c.local_port, st));
                            assert(port_models(port_states@) =~= psm.push((c.local_port, st@)));
                        },
                    }
                }
            },
            None => {},
        }
        assert(map_of(port_models(port_states@)) =~= record_ports(p0, next, pm, now));
        i = i + 1;
    }
    assert(news@.take(i as int) =~= news@);
}


/// Number of established connections with local port `port`.
pub open spec fn count_established(conns: Seq<SocketConn>, port: u16) -> nat
    decreases conns.len(),
{
    if conns.len() == 0 {
        0
    } else {
        count_established(conns.drop_last(), port) + if conns.last().state
            == ConnState::Established && conns.last().local_port == port {
            1nat
        } else {
            0nat
        }
    }
}

pub proof fn lemma_count_established_bound(conns: Seq<SocketConn>, port: u16)
    ensures
        count_established(conns, port) <= conns.len(),
    decreases conns.len(),
{
    if conns.len() > 0 {
        lemma_count_established_bound(conns.drop_last(), port);
    }
}

/// A port once the tick is over: its open connections counted (when a
/// process is known to listen on it; else none), old events dropped.
pub open spec fn refreshed_port(
    port: u16,
    m: PortModel,
    conns: Seq<SocketConn>,
    pm: Map<u16, u32>,
    now: u64,
) -> PortModel {
    PortModel {
        pid: m.pid,
        total_requests: m.total_requests,
        recent: evicted(m.recent, now),
        last_seen: m.last_seen,
        active_connections: if pm.contains_key(port) {
            count_established(conns, port) as u64
        } else {
            0
        },
    }
}

fn count_established_on(conns: &Vec<SocketConn>, port: u16) -> (n: u64)
    ensures
        n == count_established(conns@, port),
{
    let mut n: u64 = 0;
    let mut i: usize = 0;
    while i < conns.len()
        invariant
            i <= conns@.len(),
            n == count_established(conns@.take(i as int), port),
            n <= i,
        decreases conns.len() - i,
    {
        assert(conns@.take(i + 1).drop_last() =~= conns@.take(i as int));
        if conns[i].is_established() && conns[i].local_port == port {
            n = n + 1;
        }
        i = i + 1;
    }
    assert(conns@.take(i as int) =~= conns@);
    n
}

/// Sets each port's count of open connections and drops its old events.
pub fn refresh_ports(
    port_states: &mut Vec<(u16, PortState)>,
    conns: &Vec<SocketConn>,
    pmap: &Vec<(u16, u32)>,
    now: u64,
)
    requires
        unique_keys(port_models(old(port_states)@)),
    ensures
        unique_keys(port_models(final(port_states)@)),
        map_of(port_models(final(port_states)@)) == Map::new(
            |k: u16| map_of(port_models(old(port_states)@)).contains_key(k),
            |k: u16|
                refreshed_port(
                    k,
                    map_of(port_models(old(port_states)@))[k],
                    conns@,
                    map_of(pmap@),
                    now,
                ),
        ),
{
    let ghost pm = map_of(pmap@);
    let ghost s0 = port_models(port_states@);
    let ghost e0 = port_states@;
    let mut j: usize = 0;
    while j < port_states.len()
        invariant
            j <= port_states@.len(),
            port_states@.len() == e0.len(),
            e0 == old(port_states)@,
            s0 == port_models(e0),
            pm == map_of(pmap@),
            forall|k: int| 0 <= k < e0.len() ==> (#[trigger] port_states@[k]).0 == e0[k].0,
            forall|k: int|
                0 <= k < j ==> (#[trigger] port_states@[k]).1@ == refreshed_port(
                    e0[k].0,
                    e0[k].1@,
                    conns@,
                    pm,
                    now,
                ),
            forall|k: int| j <= k < e0.len() ==> (#[trigger] port_states@[k]).1@ == e0[k].1@,
        decreases port_states.len() - j,
    {
        let port = port_states[j].0;
        let active = match lookup_u16(pmap, port) {
            Some(_) => count_established_on(conns, port),
            None => 0,
        };
        let ghost before = port_states@;
        port_states[j].1.active_connections = active;
        port_states[j].1.evict_old_events(now);
        proof {
            assert forall|k: int| 0 <= k < e0.len() && k != j implies #[trigger] port_states@[k]
                == before[k] by {}
        }
        j = j + 1;
    }
    proof {
        let s1 = port_models(port_states@);
        assert forall|k: int| 0 <= k < s0.len() implies (#[trigger] s1[k]).0 == s0[k].0 && s1[k].1
            == refreshed_port(s0[k].0, s0[k].1, conns@, pm, now) by {
            assert(s1[k] == (port_states@[k].0, port_states@[k].1@));
            assert(s0[k] == (e0[k].0, e0[k].1@));
        }
        lemma_pointwise(s0, s1, |k: u16, m: PortModel| refreshed_port(k, m, conns@, pm, now));
    }
}

/// Whole seconds since a moment (0 when it is later than `now`) fall short
/// of the edge lifetime.
pub open spec fn edge_alive(m: EdgeModel, now: u64) -> bool {
    (if now >= m.last_seen {
        now - m.last_seen
    } else {
        0
    }) < EDGE_TTL_MS
}

/// An edge with its old events dropped.
pub open spec fn evicted_edge(m: EdgeModel, now: u64) -> EdgeModel {
    EdgeModel {
        total_calls: m.total_calls,
        recent: evicted(m.recent, now),
        last_seen: m.last_seen,
        first_seen: m.first_seen,
    }
}

/// Drops old events from every edge, then the edges idle for the edge
/// lifetime or longer.
pub fn prune_edges(edges: &mut Vec<((u32, u32), EdgeState)>, now: u64)
    requires
        unique_keys(edge_models(old(edges)@)),
    ensures
        unique_keys(edge_models(final(edges)@)),
        map_of(edge_models(final(edges)@)) == Map::new(
            |k: (u32, u32)|
                map_of(edge_models(old(edges)@)).contains_key(k) && edge_alive(
                    map_of(edge_models(old(edges)@))[k],
                    now,
                ),
            |k: (u32, u32)| evicted_edge(map_of(edge_models(old(edges)@))[k], now),
        ),
{
    let ghost s0 = edge_models(edges@);
    let ghost e0 = edges@;
    let mut j: usize = 0;
    while j < edges.len()
        invariant
            j <= edges@.len(),
            edges@.len() == e0.len(),
            e0 == old(edges)@,
            s0 == edge_models(e0),
            forall|k: int| 0 <= k < e0.len() ==> (#[trigger] edges@[k]).0 == e0[k].0,
            forall|k: int|
                0 <= k < j ==> (#[trigger] edges@[k]).1@ == evicted_edge(e0[k].1@, now),
            forall|k: int| j <= k < e0.len() ==> (#[trigger] edges@[k]).1@ == e0[k].1@,
        decreases edges.len() - j,
    {
        let ghost before = edges@;
        edges[j].1.evict_old_events(now);
        proof {
            assert forall|k: int| 0 <= k < e0.len() && k != j implies #[trigger] edges@[k]
                == before[k] by {}
        }
        j = j + 1;
    }
    let ghost s1 = edge_models(edges@);
    proof {
        assert forall|k: int| 0 <= k < s0.len() implies (#[trigger] s1[k]).0 == s0[k].0 && s1[k].1
            == evicted_edge(s0[k].1, now) by {
            assert(s1[k] == (edges@[k].0, edges@[k].1@));
            assert(s0[k] == (e0[k].0, e0[k].1@));
        }
        lemma_pointwise(s0, s1, |k: (u32, u32), m: EdgeModel| evicted_edge(m, now));
    }
    let ghost evicted_entries = edges@;
    let ghost keep = |m: EdgeModel| edge_alive(m, now);
    let total = edges.len();
    let mut src: Vec<((u32, u32), EdgeState)> = Vec::new();
    std::mem::swap(edges, &mut src);
    let mut k: usize = 0;
    assert(s1.take(0) =~= Seq::<((u32, u32), EdgeModel)>::empty());
    assert(edge_models(edges@) =~= kept_entries(s1.take(0), keep));
    assert(src@.skip(0) =~= src@);
    while src.len() > 0
        invariant
            k + src@.len() == total,
            total == evicted_entries.len(),
            src@ == evicted_entries.skip(k as int),
            s1 == edge_models(evicted_entries),
            keep == (|m: EdgeModel| edge_alive(m, now)),
            edge_models(edges@) == kept_entries(s1.take(k as int), keep),
        decreases src@.len(),
    {
        let e = src.remove(0);
        assert(e == evicted_entries[k as int]);
        assert(s1.take(k + 1).drop_last() =~= s1.take(k as int));
        assert(s1.take(k + 1).last() == (e.0, e.1@));
        let alive = if now >= e.1.last_seen {
            now - e.1.last_seen < EDGE_TTL_MS
        } else {
            0 < EDGE_TTL_MS
        };
        assert(keep(e.1@) == edge_alive(e.1@, now));
        assert(alive == edge_alive(e.1@, now));
        assert(kept_entries(s1.take(k + 1), keep) == if keep(e.1@) {
            kept_entries(s1.take(k as int), keep).push((e.0, e.1@))
        } else {
            kept_entries(s1.take(k as int), keep)
        });
        let ghost before = edges@;
        if alive {
            edges.push(e);
            assert(edge_models(edges@) =~= edge_models(before).push((e.0, e.1@)));
        }
        assert(src@ =~= evicted_entries.skip(k + 1));
        k = k + 1;
    }
    assert(s1.take(k as int) =~= s1);
    proof {
        lemma_kept_entries(s1, keep);
        let target = Map::new(
            |key: (u32, u32)|
                map_of(s0).contains_key(key) && edge_alive(map_of(s0)[key], now),
            |key: (u32, u32)| evicted_edge(map_of(s0)[key], now),
        );
        assert(map_of(edge_models(edges@)) =~= target);
    }
}


/// The number that stands for a connection's port pair; the client's
/// ephemeral port tells connections to the same server port apart.
pub open spec fn conn_code(c: SocketConn) -> u32 {
    (c.local_port as u32 * 65536 + c.remote_port as u32) as u32
}

pub fn code_of(c: &SocketConn) -> (x: u32)
    ensures
        x == conn_code(*c),
{
    (c.local_port as u32) * 65536 + (c.remote_port as u32)
}

/// The port pairs of the established connections of `conns`.
pub open spec fn established_codes(conns: Seq<SocketConn>) -> Set<u32>
    decreases conns.len(),
{
    if conns.len() == 0 {
        Set::empty()
    } else {
        let rest = established_codes(conns.drop_last());
        if conns.last().state == ConnState::Established {
            rest.insert(conn_code(conns.last()))
        } else {
            rest
        }
    }
}

/// The established connections of `conns` whose port pair was not seen in
/// the previous tick, in order.
pub open spec fn fresh_conns(conns: Seq<SocketConn>, prev: Set<u32>) -> Seq<SocketConn>
    decreases conns.len(),
{
    if conns.len() == 0 {
        seq![]
    } else {
        let rest = fresh_conns(conns.drop_last(), prev);
        let c = conns.last();
        if c.state == ConnState::Established && !prev.contains(conn_code(c)) {
            rest.push(c)
        } else {
            rest
        }
    }
}

pub proof fn lemma_fresh_conns_len(conns: Seq<SocketConn>, prev: Set<u32>)
    ensures
        fresh_conns(conns, prev).len() <= conns.len(),
    decreases conns.len(),
{
    if conns.len() > 0 {
        lemma_fresh_conns_len(conns.drop_last(), prev);
    }
}

pub fn established_code_set(conns: &Vec<SocketConn>) -> (set: HashSet<u32>)
    ensures
        set@ == established_codes(conns@),
{
    broadcast use vstd::std_specs::hash::group_hash_axioms;

    let mut set: HashSet<u32> = HashSet::new();
    let mut i: usize = 0;
    while i < conns.len()
        invariant
            i <= conns@.len(),
            set@ == established_codes(conns@.take(i as int)),
        decreases conns.len() - i,
    {
        assert(conns@.take(i + 1).drop_last() =~= conns@.take(i as int));
        if conns[i].is_established() {
            set.insert(code_of(&conns[i]));
        }
        i = i + 1;
    }
    assert(conns@.take(i as int) =~= conns@);
    set
}

pub fn fresh_connections(conns: &Vec<SocketConn>, prev: &HashSet<u32>) -> (news: Vec<SocketConn>)
    ensures
        news@ == fresh_conns(conns@, prev@),
{
    broadcast use vstd::std_specs::hash::group_hash_axioms;

    let mut news: Vec<SocketConn> = Vec::new();
    let mut i: usize = 0;
    while i < conns.len()
        invariant
            i <= conns@.len(),
            news@ == fresh_conns(conns@.take(i as int), prev@),
        decreases conns.len() - i,
    {
        assert(conns@.take(i + 1).drop_last() =~= conns@.take(i as int));
        let c = conns[i];
        if c.is_established() {
            let code = code_of(&c);
            if !prev.contains(&code) {
                news.push(c);
            }
        }
        i = i + 1;
    }
    assert(conns@.take(i as int) =~= conns@);
    news
}

} // verus!
