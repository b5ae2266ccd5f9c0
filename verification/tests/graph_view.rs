use arch_live::analyzer::graph::{
    truncate, Edge, GraphSnapshot, HttpEntry, PathStat, PortStat, Service, StatusKind,
};
use arch_live::collector::process::Runtime;

fn svc(pid: u32, name: &str, runtime: Runtime, ports: Vec<u16>) -> Service {
    Service { pid, name: name.to_string(), runtime, script: None, cwd: None, ports }
}

fn edge(src: u32, dst: u32, total: u64) -> Edge {
    Edge { src_pid: src, dst_pid: dst, total_calls: total, recent_calls: 0, window_secs: 10, idle_secs: 0 }
}

fn port_stat(port: u16, total: u64, idle: u64) -> PortStat {
    PortStat {
        port,
        pid: 1,
        service_name: "api".to_string(),
        total_requests: total,
        recent_requests: 0,
        window_secs: 10,
        active_connections: 0,
        idle_secs: idle,
    }
}

fn path_stat(path: &str, total: u64) -> PathStat {
    PathStat { path: path.to_string(), total_calls: total, recent_calls: 0, window_secs: 10, avg_duration_ms: 0, last_status: 200, error_count: 0 }
}

fn snapshot() -> GraphSnapshot {
    GraphSnapshot {
        services: vec![
            svc(1, "api", Runtime::Node, vec![3000]),
            svc(2, "web", Runtime::Bun, vec![8080, 8081]),
            svc(3, "db", Runtime::Other("postgres".to_string()), vec![]),
            svc(4, "cache", Runtime::Other("redis".to_string()), vec![6379]),
        ],
        edges: vec![edge(2, 1, 4), edge(1, 3, 9), edge(3, 4, 7), edge(9, 1, 100), edge(4, 1, 9)],
        port_stats: vec![port_stat(3000, 5, 0), port_stat(8080, 12, 3), port_stat(6379, 5, 61)],
        http_log: vec![],
        path_stats: vec![path_stat("/a", 1), path_stat("/b", 3), path_stat("/c", 1)],
        tap_listen_port: None,
        timestamp: 0,
    }
}

#[test]
fn service_badges_and_ports() {
    let s = snapshot();
    assert_eq!(s.services[0].runtime_badge(), "[node]");
    assert_eq!(s.services[1].runtime_badge(), "[bun] ");
    assert_eq!(s.services[2].runtime_badge(), "[sys] ");
    assert_eq!(s.services[0].ports_display(), "3000");
    assert_eq!(s.services[1].ports_display(), "8080, 8081");
    assert_eq!(s.services[2].ports_display(), "-");
    assert!(s.services[0].is_node_or_bun());
    assert!(!s.services[3].is_node_or_bun());
}

#[test]
fn idle_labels() {
    let mut e = edge(1, 2, 0);
    for (secs, text) in [(0u64, "now"), (1, "1s ago"), (59, "59s ago"), (60, "1m ago"), (3599, "59m ago")] {
        e.idle_secs = secs;
        assert_eq!(e.idle_label(), text);
        assert_eq!(port_stat(1, 0, secs).idle_label(), text);
    }
}

#[test]
fn status_classes() {
    let mut h = HttpEntry { method: "GET".to_string(), path: "/".to_string(), status: 200, duration_ms: 1, timestamp: 0 };
    for (status, kind) in [
        (200u16, StatusKind::Success),
        (299, StatusKind::Success),
        (301, StatusKind::Redirect),
        (404, StatusKind::ClientError),
        (503, StatusKind::ServerError),
        (199, StatusKind::Other),
        (600, StatusKind::Other),
    ] {
        h.status = status;
        assert_eq!(h.status_style_hint(), kind);
    }
}

#[test]
fn snapshot_totals() {
    let mut s = snapshot();
    assert_eq!(s.node_bun_count(), 2);
    assert_eq!(s.total_calls(), 129);
    assert_eq!(s.total_inbound(), 22);
    assert_eq!(s.tap_total_requests(), 5);
    assert!(!s.tap_active());
    s.tap_listen_port = Some(3001);
    assert!(s.tap_active());
}

#[test]
fn sorted_stats_are_stable_and_descending() {
    let s = snapshot();
    let paths: Vec<&str> = s.sorted_path_stats().iter().map(|p| p.path.as_str()).collect();
    assert_eq!(paths, vec!["/b", "/a", "/c"]);
    let ports: Vec<u16> = s.sorted_port_stats().iter().map(|p| p.port).collect();
    assert_eq!(ports, vec![8080, 3000, 6379]);
}

#[test]
fn sorted_edges_join_services() {
    let s = snapshot();
    let rows = s.sorted_edges(false);
    let got: Vec<(u32, u32, &str, &str)> =
        rows.iter().map(|(e, a, b)| (e.src_pid, e.dst_pid, a.name.as_str(), b.name.as_str())).collect();
    // the edge from unknown pid 9 is left out; ties keep their order
    assert_eq!(got, vec![(1, 3, "api", "db"), (4, 1, "cache", "api"), (3, 4, "db", "cache"), (2, 1, "web", "api")]);
    let node_rows = s.sorted_edges(true);
    let got2: Vec<(u32, u32)> = node_rows.iter().map(|(e, _, _)| (e.src_pid, e.dst_pid)).collect();
    assert_eq!(got2, vec![(1, 3), (4, 1), (2, 1)]);
}

#[test]
fn sorted_edges_take_the_last_service_of_a_pid() {
    let mut s = snapshot();
    s.services.push(svc(1, "api-2", Runtime::Node, vec![]));
    let rows = s.sorted_edges(false);
    assert_eq!(rows[0].1.name, "api-2");
}

#[test]
fn truncate_keeps_short_text() {
    assert_eq!(truncate("hello", 10), "hello");
    assert_eq!(truncate("hello", 5), "hello");
    assert_eq!(truncate("", 0), "");
}

#[test]
fn truncate_cuts_with_ellipsis() {
    assert_eq!(truncate("hello world", 5), "hell\u{2026}");
    assert_eq!(truncate("abc", 1), "\u{2026}");
    assert_eq!(truncate("abc", 0), "\u{2026}");
    assert_eq!(truncate("h\u{e9}llo", 4), "h\u{e9}\u{2026}");
}
