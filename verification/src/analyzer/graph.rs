//! The service graph as the view shows it: services, the calls between
//! them, inbound traffic per port and per HTTP path.

use vstd::prelude::*;
use crate::collector::process::Runtime;
use crate::order::{is_stable_desc_order, stable_desc_order};
use crate::text::{append_str, dec_digits, push_char, string_from, u64_to_string};

verus! {

broadcast use vstd::utf8::encode_utf8_decode_utf8;

/// A service node in the architecture graph
#[derive(Debug, Clone)]
pub struct Service {
    pub pid: u32,
    pub name: String,
    pub runtime: Runtime,
    pub script: Option<String>,
    pub cwd: Option<String>,
    pub ports: Vec<u16>,
}

/// The badge shown before a service of runtime `r`.
pub open spec fn badge_of(r: Runtime) -> Seq<char> {
    match r {
        Runtime::Node => "[node]"@,
        Runtime::Bun => "[bun] "@,
        Runtime::Other(_) => "[sys] "@,
    }
}

/// The ports of a service, in order, separated by ", ".
pub open spec fn join_ports(ps: Seq<u16>) -> Seq<char>
    decreases ps.len(),
{
    if ps.len() == 0 {
        seq![]
    } else if ps.len() == 1 {
        dec_digits(ps[0] as nat)
    } else {
        join_ports(ps.drop_last()) + ", "@ + dec_digits(ps.last() as nat)
    }
}

/// The ports of a service for display: "-" when it has none.
pub open spec fn ports_text(ps: Seq<u16>) -> Seq<char> {
    if ps.len() == 0 {
        "-"@
    } else {
        join_ports(ps)
    }
}

impl Service {
    pub fn is_node_or_bun(&self) -> (b: bool)
        ensures
            b == (self.runtime is Node || self.runtime is Bun),
    {
        self.runtime.is_node_or_bun()
    }

    pub fn runtime_badge(&self) -> (s: &'static str)
        ensures
            s@ == badge_of(self.runtime),
    {
        match self.runtime {
            Runtime::Node => "[node]",
            Runtime::Bun => "[bun] ",
            Runtime::Other(_) => "[sys] ",
        }
    }

    pub fn ports_display(&self) -> (s: String)
        ensures
            s@ == ports_text(self.ports@),
    {
        if self.ports.len() == 0 {
            return string_from("-");
        }
        let mut s = u64_to_string(self.ports[0] as u64);
        let mut i: usize = 1;
        assert(self.ports@.take(1).drop_last() =~= Seq::<u16>::empty());
        while i < self.ports.len()
            invariant
                1 <= i <= self.ports@.len(),
                s@ == join_ports(self.ports@.take(i as int)),
            decreases self.ports.len() - i,
        {
            append_str(&mut s, ", ");
            let d = u64_to_string(self.ports[i] as u64);
            append_str(&mut s, d.as_str());
            assert(self.ports@.take(i + 1).drop_last() =~= self.ports@.take(i as int));
            i = i + 1;
        }
        assert(self.ports@.take(i as int) =~= self.ports@);
        s
    }
}

/// How long ago something was last seen: "now", "Ns ago" under a minute,
/// then whole minutes "Nm ago".
pub open spec fn idle_text(idle_secs: u64) -> Seq<char> {
    if idle_secs == 0 {
        "now"@
    } else if idle_secs < 60 {
        dec_digits(idle_secs as nat) + "s ago"@
    } else {
        dec_digits((idle_secs / 60) as nat) + "m ago"@
    }
}

fn idle_string(idle_secs: u64) -> (s: String)
    ensures
        s@ == idle_text(idle_secs),
{
    if idle_secs == 0 {
        string_from("now")
    } else if idle_secs < 60 {
        let mut s = u64_to_string(idle_secs);
        append_str(&mut s, "s ago");
        s
    } else {
        let mut s = u64_to_string(idle_secs / 60);
        append_str(&mut s, "m ago");
        s
    }
}

/// A directed edge: one observed call path between two services
#[derive(Debug, Clone, Copy, PartialEq, Eq, Structural)]
pub struct Edge {
    pub src_pid: u32,
    pub dst_pid: u32,
    /// Total new TCP connections observed on this edge (proxy for HTTP requests)
    pub total_calls: u64,
    /// Calls observed in the last rolling window (for req/s)
    pub recent_calls: u64,
    /// Rolling window duration in seconds used to compute rate
    pub window_secs: u64,
    /// Seconds since this edge was last active
    pub idle_secs: u64,
}

impl Edge {
    pub fn idle_label(&self) -> (s: String)
        ensures
            s@ == idle_text(self.idle_secs),
    {
        idle_string(self.idle_secs)
    }
}

/// Per-port inbound request statistics: each new TCP connection to a
/// listening port counts as one inbound request.
#[derive(Debug, Clone)]
pub struct PortStat {
    pub port: u16,
    pub pid: u32,
    pub service_name: String,
    /// Total inbound connections seen since the port was first detected
    pub total_requests: u64,
    /// Requests within the last rolling window
    pub recent_requests: u64,
    pub window_secs: u64,
    /// Currently open connections to this port
    pub active_connections: u64,
    /// Seconds since the last inbound connection
    pub idle_secs: u64,
}

impl PortStat {
    pub fn idle_label(&self) -> (s: String)
        ensures
            s@ == idle_text(self.idle_secs),
    {
        idle_string(self.idle_secs)
    }
}

/// A single HTTP request captured by the tap proxy
#[derive(Debug, Clone)]
pub struct HttpEntry {
    pub method: String,
    pub path: String,
    pub status: u16,
    pub duration_ms: u64,
    /// When the request completed, in milliseconds since the Unix epoch (UTC)
    pub timestamp: i64,
}

#[derive(Debug, Clone, Copy, PartialEq, Eq, Structural)]
pub enum StatusKind {
    Success,
    Redirect,
    ClientError,
    ServerError,
    Other,
}

/// The class of an HTTP status code.
pub open spec fn status_kind(status: u16) -> StatusKind {
    if 200 <= status <= 299 {
        StatusKind::Success
    } else if 300 <= status <= 399 {
        StatusKind::Redirect
    } else if 400 <= status <= 499 {
        StatusKind::ClientError
    } else if 500 <= status <= 599 {
        StatusKind::ServerError
    } else {
        StatusKind::Other
    }
}

pub fn status_kind_of(status: u16) -> (k: StatusKind)
    ensures
        k == status_kind(status),
{
    if 200 <= status && status <= 299 {
        StatusKind::Success
    } else if 300 <= status && status <= 399 {
        StatusKind::Redirect
    } else if 400 <= status && status <= 499 {
        StatusKind::ClientError
    } else if 500 <= status && status <= 599 {
        StatusKind::ServerError
    } else {
        StatusKind::Other
    }
}

impl HttpEntry {
    pub fn status_style_hint(&self) -> (k: StatusKind)
        ensures
            k == status_kind(self.status),
    {
        status_kind_of(self.status)
    }
}

/// Per-path aggregate stats from the tap
#[derive(Debug, Clone)]
pub struct PathStat {
    pub path: String,
    pub total_calls: u64,
    /// Calls in the last rolling window
    pub recent_calls: u64,
    pub window_secs: u64,
    pub avg_duration_ms: u64,
    pub last_status: u16,
    /// Client and server errors (4xx + 5xx)
    pub error_count: u64,
}

/// Point-in-time snapshot of the full graph, sent to the renderer each tick
#[derive(Debug, Clone)]
pub struct GraphSnapshot {
    pub services: Vec<Service>,
    pub edges: Vec<Edge>,
    /// Inbound request stats for every port a tracked service listens on
    pub port_stats: Vec<PortStat>,
    /// Most recent HTTP requests from the tap (newest last, capped at 200)
    pub http_log: Vec<HttpEntry>,
    /// Per-path aggregates from the tap
    pub path_stats: Vec<PathStat>,
    pub tap_listen_port: Option<u16>,
    /// When the snapshot was taken, in milliseconds since the Unix epoch (UTC)
    pub timestamp: i64,
}

/// Number of Node/Bun services.
pub open spec fn count_node_bun(svcs: Seq<Service>) -> nat
    decreases svcs.len(),
{
    if svcs.len() == 0 {
        0
    } else {
        count_node_bun(svcs.drop_last()) + if svcs.last().runtime is Node
            || svcs.last().runtime is Bun {
            1nat
        } else {
            0nat
        }
    }
}

pub open spec fn sum_edge_calls(es: Seq<Edge>) -> nat
    decreases es.len(),
{
    if es.len() == 0 {
        0
    } else {
        sum_edge_calls(es.drop_last()) + es.last().total_calls as nat
    }
}

pub open spec fn sum_port_requests(ps: Seq<PortStat>) -> nat
    decreases ps.len(),
{
    if ps.len() == 0 {
        0
    } else {
        sum_port_requests(ps.drop_last()) + ps.last().total_requests as nat
    }
}

pub open spec fn sum_path_calls(ps: Seq<PathStat>) -> nat
    decreases ps.len(),
{
    if ps.len() == 0 {
        0
    } else {
        sum_path_calls(ps.drop_last()) + ps.last().total_calls as nat
    }
}

pub proof fn lemma_sum_edge_calls_mono(es: Seq<Edge>, i: int)
    requires
        0 <= i <= es.len(),
    ensures
        sum_edge_calls(es.take(i)) <= sum_edge_calls(es),
    decreases es.len() - i,
{
    if i < es.len() {
        lemma_sum_edge_calls_mono(es, i + 1);
        assert(es.take(i + 1).drop_last() =~= es.take(i));
    } else {
        assert(es.take(i) =~= es);
    }
}

pub proof fn lemma_sum_port_requests_mono(ps: Seq<PortStat>, i: int)
    requires
        0 <= i <= ps.len(),
    ensures
        sum_port_requests(ps.take(i)) <= sum_port_requests(ps),
    decreases ps.len() - i,
{
    if i < ps.len() {
        lemma_sum_port_requests_mono(ps, i + 1);
        assert(ps.take(i + 1).drop_last() =~= ps.take(i));
    } else {
        assert(ps.take(i) =~= ps);
    }
}

pub proof fn lemma_sum_path_calls_mono(ps: Seq<PathStat>, i: int)
    requires
        0 <= i <= ps.len(),
    ensures
        sum_path_calls(ps.take(i)) <= sum_path_calls(ps),
    decreases ps.len() - i,
{
    if i < ps.len() {
        lemma_sum_path_calls_mono(ps, i + 1);
        assert(ps.take(i + 1).drop_last() =~= ps.take(i));
    } else {
        assert(ps.take(i) =~= ps);
    }
}

/// The call counts of path stats, in order.
pub open spec fn path_call_keys(ps: Seq<PathStat>) -> Seq<u64> {
    ps.map_values(|p: PathStat| p.total_calls)
}

/// The request counts of port stats, in order.
pub open spec fn port_request_keys(ps: Seq<PortStat>) -> Seq<u64> {
    ps.map_values(|p: PortStat| p.total_requests)
}

/// Index of the last service with pid `pid` (-1 when there is none): the
/// one a pid-keyed map built from the list in order keeps.
pub open spec fn service_index(svcs: Seq<Service>, pid: u32) -> int
    decreases svcs.len(),
{
    if svcs.len() == 0 {
        -1
    } else if svcs.last().pid == pid {
        svcs.len() - 1
    } else {
        service_index(svcs.drop_last(), pid)
    }
}

pub proof fn lemma_service_index(svcs: Seq<Service>, pid: u32)
    ensures
        -1 <= service_index(svcs, pid) < svcs.len(),
        service_index(svcs, pid) >= 0 ==> svcs[service_index(svcs, pid)].pid == pid,
        service_index(svcs, pid) == -1 ==> forall|i: int|
            0 <= i < svcs.len() ==> #[trigger] svcs[i].pid != pid,
    decreases svcs.len(),
{
    if svcs.len() > 0 && svcs.last().pid != pid {
        lemma_service_index(svcs.drop_last(), pid);
        assert forall|i: int| 0 <= i < svcs.len() - 1 implies #[trigger] svcs[i] == svcs.drop_last()[i] by {}
    }
}

/// A row of the call table: an edge with the services at its two ends.
pub open spec fn edge_rows(es: Seq<Edge>, svcs: Seq<Service>, node_only: bool) -> Seq<(int, int, int)>
    decreases es.len(),
{
    if es.len() == 0 {
        seq![]
    } else {
        let rest = edge_rows(es.drop_last(), svcs, node_only);
        let e = es.last();
        let s = service_index(svcs, e.src_pid);
        let d = service_index(svcs, e.dst_pid);
        if s < 0 || d < 0 {
            rest
        } else if node_only && !(svcs[s].runtime is Node || svcs[s].runtime is Bun) && !(
        svcs[d].runtime is Node || svcs[d].runtime is Bun) {
            rest
        } else {
            rest.push((es.len() - 1, s, d))
        }
    }
}

fn find_service(svcs: &Vec<Service>, pid: u32) -> (r: Option<usize>)
    ensures
        match r {
            Some(i) => i as int == service_index(svcs@, pid),
            None => service_index(svcs@, pid) == -1,
        },
{
    let mut j = svcs.len();
    assert(svcs@.take(j as int) =~= svcs@);
    while j > 0
        invariant
            j <= svcs@.len(),
            service_index(svcs@, pid) == service_index(svcs@.take(j as int), pid),
        decreases j,
    {
        assert(svcs@.take(j as int).drop_last() =~= svcs@.take(j - 1));
        if svcs[j - 1].pid == pid {
            return Some(j - 1);
        }
        j = j - 1;
    }
    None
}

impl GraphSnapshot {
    pub fn node_bun_count(&self) -> (n: usize)
        ensures
            n == count_node_bun(self.services@),
    {
        let mut n: usize = 0;
        let mut i: usize = 0;
        while i < self.services.len()
            invariant
                i <= self.services@.len(),
                n == count_node_bun(self.services@.take(i as int)),
                n <= i,
            decreases self.services.len() - i,
        {
            assert(self.services@.take(i + 1).drop_last() =~= self.services@.take(i as int));
            if self.services[i].is_node_or_bun() {
                n = n + 1;
            }
            i = i + 1;
        }
        assert(self.services@.take(i as int) =~= self.services@);
        n
    }

    pub fn total_calls(&self) -> (t: u64)
        requires
            sum_edge_calls(self.edges@) <= u64::MAX,
        ensures
            t == sum_edge_calls(self.edges@),
    {
        let mut t: u64 = 0;
        let mut i: usize = 0;
        while i < self.edges.len()
            invariant
                i <= self.edges@.len(),
                t == sum_edge_calls(self.edges@.take(i as int)),
                sum_edge_calls(self.edges@) <= u64::MAX,
            decreases self.edges.len() - i,
        {
            assert(self.edges@.take(i + 1).drop_last() =~= self.edges@.take(i as int));
            proof {
                lemma_sum_edge_calls_mono(self.edges@, i + 1);
            }
            t = t + self.edges[i].total_calls;
            i = i + 1;
        }
        assert(self.edges@.take(i as int) =~= self.edges@);
        t
    }

    pub fn total_inbound(&self) -> (t: u64)
        requires
            sum_port_requests(self.port_stats@) <= u64::MAX,
        ensures
            t == sum_port_requests(self.port_stats@),
    {
        let mut t: u64 = 0;
        let mut i: usize = 0;
        while i < self.port_stats.len()
            invariant
                i <= self.port_stats@.len(),
                t == sum_port_requests(self.port_stats@.take(i as int)),
                sum_port_requests(self.port_stats@) <= u64::MAX,
            decreases self.port_stats.len() - i,
        {
            assert(self.port_stats@.take(i + 1).drop_last() =~= self.port_stats@.take(i as int));
            proof {
                lemma_sum_port_requests_mono(self.port_stats@, i + 1);
            }
            t = t + self.port_stats[i].total_requests;
            i = i + 1;
        }
        assert(self.port_stats@.take(i as int) =~= self.port_stats@);
        t
    }

    /// Whether the call, inbound and tap totals all fit in a `u64`.
    pub fn sums_fit(&self) -> (b: bool)
        ensures
            b == (sum_edge_calls(self.edges@) <= u64::MAX && sum_port_requests(self.port_stats@)
                <= u64::MAX && sum_path_calls(self.path_stats@) <= u64::MAX),
    {
        let mut t: u64 = 0;
        let mut i: usize = 0;
        while i < self.edges.len()
            invariant
                i <= self.edges@.len(),
                t == sum_edge_calls(self.edges@.take(i as int)),
            decreases self.edges.len() - i,
        {
            assert(self.edges@.take(i + 1).drop_last() =~= self.edges@.take(i as int));
            if self.edges[i].total_calls > u64::MAX - t {
                proof {
                    lemma_sum_edge_calls_mono(self.edges@, i + 1);
                }
                return false;
            }
            t = t + self.edges[i].total_calls;
            i = i + 1;
        }
        assert(self.edges@.take(i as int) =~= self.edges@);
        let mut u: u64 = 0;
        let mut j: usize = 0;
        while j < self.port_stats.len()
            invariant
                j <= self.port_stats@.len(),
                u == sum_port_requests(self.port_stats@.take(j as int)),
            decreases self.port_stats.len() - j,
        {
            assert(self.port_stats@.take(j + 1).drop_last() =~= self.port_stats@.take(j as int));
            if self.port_stats[j].total_requests > u64::MAX - u {
                proof {
                    lemma_sum_port_requests_mono(self.port_stats@, j + 1);
                }
                return false;
            }
            u = u + self.port_stats[j].total_requests;
            j = j + 1;
        }
        assert(self.port_stats@.take(j as int) =~= self.port_stats@);
        let mut w: u64 = 0;
        let mut k: usize = 0;
        while k < self.path_stats.len()
            invariant
                k <= self.path_stats@.len(),
                w == sum_path_calls(self.path_stats@.take(k as int)),
            decreases self.path_stats.len() - k,
        {
            assert(self.path_stats@.take(k + 1).drop_last() =~= self.path_stats@.take(k as int));
            if self.path_stats[k].total_calls > u64::MAX - w {
                proof {
                    lemma_sum_path_calls_mono(self.path_stats@, k + 1);
                }
                return false;
            }
            w = w + self.path_stats[k].total_calls;
            k = k + 1;
        }
        assert(self.path_stats@.take(k as int) =~= self.path_stats@);
        true
    }

    pub fn tap_active(&self) -> (b: bool)
        ensures
            b == (self.tap_listen_port is Some),
    {
        self.tap_listen_port.is_some()
    }

    pub fn tap_total_requests(&self) -> (t: u64)
        requires
            sum_path_calls(self.path_stats@) <= u64::MAX,
        ensures
            t == sum_path_calls(self.path_stats@),
    {
        let mut t: u64 = 0;
        let mut i: usize = 0;
        while i < self.path_stats.len()
            invariant
                i <= self.path_stats@.len(),
                t == sum_path_calls(self.path_stats@.take(i as int)),
                sum_path_calls(self.path_stats@) <= u64::MAX,
            decreases self.path_stats.len() - i,
        {
            assert(self.path_stats@.take(i + 1).drop_last() =~= self.path_stats@.take(i as int));
            proof {
                lemma_sum_path_calls_mono(self.path_stats@, i + 1);
            }
            t = t + self.path_stats[i].total_calls;
            i = i + 1;
        }
        assert(self.path_stats@.take(i as int) =~= self.path_stats@);
        t
    }

    /// Path stats sorted by total calls, largest first (ties keep their order)
    pub fn sorted_path_stats(&self) -> (v: Vec<&PathStat>)
        ensures
            exists|ord: Seq<usize>|
                {
                    &&& #[trigger] is_stable_desc_order(
                        path_call_keys(self.path_stats@),
                        ord,
                    )
                    &&& v@.len() == ord.len()
                    &&& forall|k: int|
                        0 <= k < ord.len() ==> *v@[k] == self.path_stats@[#[trigger] ord[k] as int]
                },
    {
        let mut keys: Vec<u64> = Vec::new();
        let mut i: usize = 0;
        while i < self.path_stats.len()
            invariant
                i <= self.path_stats@.len(),
                keys@ == self.path_stats@.take(i as int).map_values(|p: PathStat| p.total_calls),
            decreases self.path_stats.len() - i,
        {
            keys.push(self.path_stats[i].total_calls);
            i = i + 1;
            assert(keys@ =~= self.path_stats@.take(i as int).map_values(
                |p: PathStat| p.total_calls,
            ));
        }
        assert(self.path_stats@.take(i as int) =~= self.path_stats@);
        assert(keys@ =~= path_call_keys(self.path_stats@));
        let ord = stable_desc_order(&keys);
        let mut v: Vec<&PathStat> = Vec::new();
        let mut k: usize = 0;
        while k < ord.len()
            invariant
                k <= ord@.len(),
                ord@.len() == self.path_stats@.len(),
                forall|j: int| 0 <= j < ord@.len() ==> #[trigger] ord@[j] < self.path_stats@.len(),
                v@.len() == k,
                forall|j: int| 0 <= j < k ==> *v@[j] == self.path_stats@[#[trigger] ord@[j] as int],
            decreases ord.len() - k,
        {
            v.push(&self.path_stats[ord[k]]);
            k = k + 1;
        }
        assert(is_stable_desc_order(path_call_keys(self.path_stats@), ord@));
        v
    }

    /// Port stats sorted by total requests, largest first (ties keep their order)
    pub fn sorted_port_stats(&self) -> (v: Vec<&PortStat>)
        ensures
            exists|ord: Seq<usize>|
                {
                    &&& #[trigger] is_stable_desc_order(
                        port_request_keys(self.port_stats@),
                        ord,
                    )
                    &&& v@.len() == ord.len()
                    &&& forall|k: int|
                        0 <= k < ord.len() ==> *v@[k] == self.port_stats@[#[trigger] ord[k] as int]
                },
    {
        let mut keys: Vec<u64> = Vec::new();
        let mut i: usize = 0;
        while i < self.port_stats.len()
            invariant
                i <= self.port_stats@.len(),
                keys@ == self.port_stats@.take(i as int).map_values(|p: PortStat| p.total_requests),
            decreases self.port_stats.len() - i,
        {
            keys.push(self.port_stats[i].total_requests);
            i = i + 1;
            assert(keys@ =~= self.port_stats@.take(i as int).map_values(
                |p: PortStat| p.total_requests,
            ));
        }
        assert(self.port_stats@.take(i as int) =~= self.port_stats@);
        assert(keys@ =~= port_request_keys(self.port_stats@));
        let ord = stable_desc_order(&keys);
        let mut v: Vec<&PortStat> = Vec::new();
        let mut k: usize = 0;
        while k < ord.len()
            invariant
                k <= ord@.len(),
                ord@.len() == self.port_stats@.len(),
                forall|j: int| 0 <= j < ord@.len() ==> #[trigger] ord@[j] < self.port_stats@.len(),
                v@.len() == k,
                forall|j: int| 0 <= j < k ==> *v@[j] == self.port_stats@[#[trigger] ord@[j] as int],
            decreases ord.len() - k,
        {
            v.push(&self.port_stats[ord[k]]);
            k = k + 1;
        }
        assert(is_stable_desc_order(port_request_keys(self.port_stats@), ord@));
        v
    }

    /// Rows of the call table, highest call count first (ties keep their
    /// order): each edge whose two ends are known services, with those
    /// services; with `node_only`, only edges with a Node/Bun service at one end.
    pub fn sorted_edges(&self, node_only: bool) -> (rows: Vec<(&Edge, &Service, &Service)>)
        ensures
            ({
                let r = edge_rows(self.edges@, self.services@, node_only);
                exists|ord: Seq<usize>|
                    {
                        &&& #[trigger] is_stable_desc_order(row_keys(r, self.edges@), ord)
                        &&& rows@.len() == ord.len()
                        &&& forall|k: int|
                            0 <= k < ord.len() ==> {
                                let t = r[#[trigger] ord[k] as int];
                                &&& *rows@[k].0 == self.edges@[t.0]
                                &&& *rows@[k].1 == self.services@[t.1]
                                &&& *rows@[k].2 == self.services@[t.2]
                            }
                    }
            }),
    {
        let ghost es = self.edges@;
        let ghost svcs = self.services@;
        let mut found: Vec<(usize, usize, usize)> = Vec::new();
        let mut i: usize = 0;
        while i < self.edges.len()
            invariant
                i <= es.len(),
                es == self.edges@,
                svcs == self.services@,
                found@.len() == edge_rows(es.take(i as int), svcs, node_only).len(),
                forall|k: int|
                    0 <= k < found@.len() ==> {
                        let t = #[trigger] found@[k];
                        &&& (t.0 as int, t.1 as int, t.2 as int) == edge_rows(
                            es.take(i as int),
                            svcs,
                            node_only,
                        )[k]
                        &&& t.0 < es.len()
                        &&& t.1 < svcs.len()
                        &&& t.2 < svcs.len()
                    },
            decreases self.edges.len() - i,
        {
            let ghost pre = es.take(i as int);
            let ghost next = es.take(i + 1);
            assert(next.drop_last() =~= pre);
            let e = &self.edges[i];
            proof {
                lemma_service_index(svcs, e.src_pid);
                lemma_service_index(svcs, e.dst_pid);
            }
            let src = find_service(&self.services, e.src_pid);
            let dst = find_service(&self.services, e.dst_pid);
            match (src, dst) {
                (Some(si), Some(di)) => {
                    let keep = !node_only || self.services[si].is_node_or_bun()
                        || self.services[di].is_node_or_bun();
                    if keep {
                        found.push((i, si, di));
                    }
                },
                _ => {},
            }
            i = i + 1;
        }
        assert(es.take(i as int) =~= es);
        let ghost r = edge_rows(es, svcs, node_only);
        let mut keys: Vec<u64> = Vec::new();
        let mut j: usize = 0;
        while j < found.len()
            invariant
                j <= found@.len(),
                found@.len() == r.len(),
                forall|k: int|
                    0 <= k < found@.len() ==> {
                        let t = #[trigger] found@[k];
                        &&& (t.0 as int, t.1 as int, t.2 as int) == r[k]
                        &&& t.0 < es.len()
                        &&& t.1 < svcs.len()
                        &&& t.2 < svcs.len()
                    },
                es == self.edges@,
                keys@ == row_keys(r, es).take(j as int),
            decreases found.len() - j,
        {
            let t = found[j];
            keys.push(self.edges[t.0].total_calls);
            j = j + 1;
            assert(keys@ =~= row_keys(r, es).take(j as int));
        }
        assert(keys@ =~= row_keys(r, es));
        let ord = stable_desc_order(&keys);
        let mut rows: Vec<(&Edge, &Service, &Service)> = Vec::new();
        let mut k: usize = 0;
        while k < ord.len()
            invariant
                k <= ord@.len(),
                ord@.len() == r.len(),
                found@.len() == r.len(),
                forall|j: int| 0 <= j < ord@.len() ==> #[trigger] ord@[j] < r.len(),
                forall|k: int|
                    0 <= k < found@.len() ==> {
                        let t = #[trigger] found@[k];
                        &&& (t.0 as int, t.1 as int, t.2 as int) == r[k]
                        &&& t.0 < es.len()
                        &&& t.1 < svcs.len()
                        &&& t.2 < svcs.len()
                    },
                es == self.edges@,
                svcs == self.services@,
                rows@.len() == k,
                forall|j: int|
                    0 <= j < k ==> {
                        let t = r[#[trigger] ord@[j] as int];
                        &&& *rows@[j].0 == es[t.0]
                        &&& *rows@[j].1 == svcs[t.1]
                        &&& *rows@[j].2 == svcs[t.2]
                    },
            decreases ord.len() - k,
        {
            let t = found[ord[k]];
            rows.push((&self.edges[t.0], &self.services[t.1], &self.services[t.2]));
            k = k + 1;
        }
        assert(is_stable_desc_order(row_keys(r, es), ord@));
        rows
    }

}


/// The call counts of the edges of call-table rows, in order.
pub open spec fn row_keys(r: Seq<(int, int, int)>, es: Seq<Edge>) -> Seq<u64> {
    r.map_values(|t: (int, int, int)| es[t.0].total_calls)
}

/// The text `truncate` gives: `s` when its UTF-8 encoding fits in `max`
/// bytes, else its first `max - 1` bytes (none when `max` is 0) followed by
/// an ellipsis.
pub open spec fn truncated(s: &str, max: usize) -> Seq<char> {
    if vstd::utf8::encode_utf8(s@).len() <= max {
        s@
    } else {
        let cut = if max == 0 {
            0
        } else {
            max - 1
        };
        vstd::utf8::decode_utf8(vstd::utf8::encode_utf8(s@).take(cut)) + seq!['\u{2026}']
    }
}

/// Shortens `s` to at most `max` bytes, ending it with an ellipsis when it
/// was cut. The cut must fall on a character boundary.
pub fn truncate(s: &str, max: usize) -> (res: String)
    requires
        vstd::utf8::encode_utf8(s@).len() > max ==> vstd::utf8::is_char_boundary(
            vstd::utf8::encode_utf8(s@),
            if max == 0 {
                0
            } else {
                max - 1
            },
        ),
    ensures
        res@ == truncated(s, max),
{
    let nbytes = s.as_bytes().len();
    if nbytes <= max {
        string_from(s)
    } else {
        let cut = if max == 0 {
            0
        } else {
            max - 1
        };
        let (head, _tail) = s.split_at(cut);
        proof {
            vstd::utf8::encode_utf8_decode_utf8(head@);
            let bytes = vstd::utf8::encode_utf8(s@);
            assert(bytes.subrange(0, cut as int) =~= bytes.take(cut as int));
            assert(vstd::utf8::encode_utf8(head@) == bytes.take(cut as int));
            assert(head@ == vstd::utf8::decode_utf8(bytes.take(cut as int)));
        }
        let mut res = string_from(head);
        push_char(&mut res, '\u{2026}');
        res
    }
}

} // verus!
