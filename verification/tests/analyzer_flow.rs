use arch_live::analyzer::graph::GraphSnapshot;
use arch_live::analyzer::{path_key_of, Analyzer, HTTP_LOG_MAX};
use arch_live::collector::process::{ProcessInfo, Runtime};
use arch_live::collector::socket::{ConnState, IpAddress, SocketConn};
use arch_live::collector::CollectorEvent;
use arch_live::renderer::{LogEvent, ViewState};

fn proc_of(pid: u32, runtime: Runtime, script: &str, name: &str, inodes: Vec<u64>) -> ProcessInfo {
    ProcessInfo {
        pid,
        name: name.to_string(),
        runtime,
        script: Some(script.to_string()),
        cwd: None,
        service_name: name.to_string(),
        ports: vec![],
        socket_inodes: inodes,
    }
}

fn conn(local: u16, remote: u16, state: ConnState, inode: u64) -> SocketConn {
    SocketConn {
        local_addr: IpAddress::HostV4(0x0100007F),
        local_port: local,
        remote_addr: IpAddress::HostV4(0x0100007F),
        remote_port: remote,
        state,
        inode,
    }
}

fn processes() -> Vec<ProcessInfo> {
    vec![
        proc_of(10, Runtime::Node, "server.js", "server", vec![100, 101, 102]),
        proc_of(20, Runtime::Bun, "index.ts", "index", vec![200, 201, 202]),
    ]
}

/// The web service (pid 20) calls the api (pid 10, port 3000) from the
/// ephemeral ports given.
fn table(client_ports: &[u16]) -> Vec<SocketConn> {
    let mut v = vec![
        conn(3000, 0, ConnState::Listen, 100),
        conn(8080, 0, ConnState::Listen, 200),
    ];
    for (i, p) in client_ports.iter().enumerate() {
        v.push(conn(*p, 3000, ConnState::Established, 201 + i as u64));
        v.push(conn(3000, *p, ConnState::Established, 101 + i as u64));
    }
    v
}

fn take_snapshot(a: &mut Analyzer, conns: Vec<SocketConn>, now: u64) -> GraphSnapshot {
    assert!(a.has_headroom(conns.len() as u64));
    a.step(CollectorEvent::ConnectionSnapshot(conns), now, 42).unwrap()
}

fn edge_total(s: &GraphSnapshot, src: u32, dst: u32) -> Option<u64> {
    s.edges.iter().find(|e| e.src_pid == src && e.dst_pid == dst).map(|e| e.total_calls)
}

fn port_total(s: &GraphSnapshot, port: u16) -> Option<u64> {
    s.port_stats.iter().find(|p| p.port == port).map(|p| p.total_requests)
}

#[test]
fn new_analyzer_is_empty() {
    let a = Analyzer::new();
    let s = a.build_snapshot(0, 1234);
    assert!(s.services.is_empty() && s.edges.is_empty() && s.port_stats.is_empty());
    assert!(s.http_log.is_empty() && s.path_stats.is_empty());
    assert_eq!(s.tap_listen_port, None);
    assert_eq!(s.timestamp, 1234);
}

#[test]
fn process_snapshot_is_enriched_and_shown() {
    let mut a = Analyzer::new();
    assert!(a.step(CollectorEvent::ProcessSnapshot(processes()), 0, 0).is_none());
    let s = a.build_snapshot(0, 0);
    let names: Vec<&str> = s.services.iter().map(|x| x.name.as_str()).collect();
    assert_eq!(names, vec!["server (Express)", "index (Bun.serve)"]);
}

#[test]
fn listening_sockets_give_ports() {
    let mut a = Analyzer::new();
    a.step(CollectorEvent::ProcessSnapshot(processes()), 0, 0);
    let s = take_snapshot(&mut a, table(&[]), 0);
    assert_eq!(s.services[0].ports, vec![3000]);
    assert_eq!(s.services[1].ports, vec![8080]);
    assert!(s.edges.is_empty());
    assert!(s.port_stats.is_empty());
}

#[test]
fn new_connection_counts_a_call_and_a_request() {
    let mut a = Analyzer::new();
    a.step(CollectorEvent::ProcessSnapshot(processes()), 0, 0);
    let s = take_snapshot(&mut a, table(&[50000]), 1000);
    assert_eq!(edge_total(&s, 20, 10), Some(1));
    assert_eq!(s.edges.len(), 1);
    assert_eq!(port_total(&s, 3000), Some(1));
    let ps = &s.port_stats[0];
    assert_eq!(ps.pid, 10);
    assert_eq!(ps.service_name, "server (Express)");
    assert_eq!(ps.active_connections, 1);
    assert_eq!(ps.recent_requests, 1);
    assert_eq!(ps.window_secs, 10);
}

#[test]
fn same_table_again_counts_nothing() {
    let mut a = Analyzer::new();
    a.step(CollectorEvent::ProcessSnapshot(processes()), 0, 0);
    take_snapshot(&mut a, table(&[50000]), 1000);
    let s = take_snapshot(&mut a, table(&[50000]), 2000);
    assert_eq!(edge_total(&s, 20, 10), Some(1));
    assert_eq!(port_total(&s, 3000), Some(1));
    assert_eq!(s.edges[0].idle_secs, 1);
    let s2 = take_snapshot(&mut a, table(&[50000, 50001]), 3000);
    assert_eq!(edge_total(&s2, 20, 10), Some(2));
    assert_eq!(port_total(&s2, 3000), Some(2));
    assert_eq!(s2.port_stats[0].active_connections, 2);
}

#[test]
fn closed_then_reopened_connection_counts_again() {
    let mut a = Analyzer::new();
    a.step(CollectorEvent::ProcessSnapshot(processes()), 0, 0);
    take_snapshot(&mut a, table(&[50000]), 0);
    take_snapshot(&mut a, table(&[]), 500);
    let s = take_snapshot(&mut a, table(&[50000]), 1000);
    assert_eq!(edge_total(&s, 20, 10), Some(2));
}

#[test]
fn rate_window_and_edge_lifetime() {
    let mut a = Analyzer::new();
    a.step(CollectorEvent::ProcessSnapshot(processes()), 0, 0);
    take_snapshot(&mut a, table(&[50000]), 20_000);
    let s = take_snapshot(&mut a, table(&[]), 30_000);
    assert_eq!(s.edges[0].recent_calls, 1);
    let s = take_snapshot(&mut a, table(&[]), 30_001);
    assert_eq!(s.edges[0].recent_calls, 0);
    assert_eq!(s.edges[0].total_calls, 1);
    let s = take_snapshot(&mut a, table(&[]), 79_999);
    assert_eq!(s.edges.len(), 1);
    assert_eq!(s.edges[0].idle_secs, 59);
    let s = take_snapshot(&mut a, table(&[]), 80_000);
    assert!(s.edges.is_empty());
    // port counters stay
    assert_eq!(port_total(&s, 3000), Some(1));
    assert_eq!(s.port_stats[0].active_connections, 0);
}

#[test]
fn self_calls_and_unknown_ports_make_no_edge() {
    let procs = vec![proc_of(10, Runtime::Node, "server.js", "server", vec![100, 300])];
    let mut a = Analyzer::new();
    a.step(CollectorEvent::ProcessSnapshot(procs), 0, 0);
    let conns = vec![
        conn(3000, 0, ConnState::Listen, 100),
        conn(41000, 3000, ConnState::Established, 300),
        conn(5000, 6000, ConnState::Established, 999),
    ];
    let s = take_snapshot(&mut a, conns, 0);
    assert!(s.edges.is_empty());
    assert!(s.port_stats.is_empty());
}

#[test]
fn tap_requests_are_logged_and_aggregated() {
    let mut a = Analyzer::new();
    a.set_tap_port(3001);
    assert!(a.can_record_http("/api/users?id=1", 12));
    let s = a
        .step(
            CollectorEvent::HttpRequest {
                method: "GET".to_string(),
                path: "/api/users?id=1".to_string(),
                status: 200,
                duration_ms: 12,
                timestamp: 1_700_000_000_000,
            },
            0,
            1_700_000_000_050,
        )
        .unwrap();
    assert_eq!(s.timestamp, 1_700_000_000_050);
    a.record_http("POST".to_string(), "/api/users".to_string(), 500, 30, 1_700_000_000_500, 100);
    a.record_http("GET".to_string(), "/health".to_string(), 404, 1, 1_700_000_000_900, 200);
    assert_eq!(s.tap_listen_port, Some(3001));
    assert_eq!(s.http_log.len(), 1);
    let s = a.build_snapshot(200, 0);
    assert_eq!(s.http_log.len(), 3);
    assert_eq!(s.http_log[2].path, "/health");
    assert_eq!(s.http_log[0].path, "/api/users?id=1");
    assert_eq!(s.tap_total_requests(), 3);
    let users = s.path_stats.iter().find(|p| p.path == "/api/users").unwrap();
    assert_eq!(users.total_calls, 2);
    assert_eq!(users.avg_duration_ms, 21);
    assert_eq!(users.last_status, 500);
    assert_eq!(users.error_count, 1);
    assert_eq!(users.recent_calls, 2);
    assert_eq!(s.path_stats.len(), 2);
}

#[test]
fn request_log_keeps_newest_entries() {
    let mut a = Analyzer::new();
    for i in 0..(HTTP_LOG_MAX as u64 + 5) {
        a.record_http("GET".to_string(), format!("/p{}", i), 200, 1, i as i64, i);
    }
    let s = a.build_snapshot(1000, 0);
    assert_eq!(s.http_log.len(), HTTP_LOG_MAX);
    assert_eq!(s.http_log[0].path, "/p5");
    assert_eq!(s.http_log[HTTP_LOG_MAX - 1].path, format!("/p{}", HTTP_LOG_MAX + 4));
}

#[test]
fn path_key_drops_query() {
    assert_eq!(path_key_of("/a/b?x=1?y"), "/a/b");
    assert_eq!(path_key_of("/a/b"), "/a/b");
    assert_eq!(path_key_of("?q"), "");
}

#[test]
fn headroom_refuses_a_full_path_counter() {
    let mut a = Analyzer::new();
    a.record_http("GET".to_string(), "/x".to_string(), 200, u64::MAX - 5, 0, 0);
    assert!(a.can_record_http("/x", 5));
    assert!(!a.can_record_http("/x?y", 6));
    assert!(a.can_record_http("/other", u64::MAX));
}

#[test]
fn listening_socket_owner_beats_listed_ports() {
    let mut p1 = proc_of(10, Runtime::Node, "server.js", "server", vec![]);
    p1.ports = vec![3000];
    let p2 = proc_of(20, Runtime::Bun, "index.ts", "index", vec![200]);
    let mut a = Analyzer::new();
    a.step(CollectorEvent::ProcessSnapshot(vec![p1, p2]), 0, 0);
    let conns = vec![
        conn(3000, 0, ConnState::Listen, 200),
        conn(3000, 41000, ConnState::Established, 999),
    ];
    let s = take_snapshot(&mut a, conns, 0);
    let ps = s.port_stats.iter().find(|p| p.port == 3000).unwrap();
    assert_eq!(ps.pid, 20);
    assert_eq!(ps.service_name, "index (Bun.serve)");
    // the process that found the socket lists the port too
    assert_eq!(s.services[1].ports, vec![3000]);
}

#[test]
fn recorded_request_reaches_the_view() {
    let mut a = Analyzer::new();
    a.set_tap_port(3001);
    let mut v = ViewState::new(false);
    v.accept_snapshot(a.build_snapshot(0, 0));
    a.record_http("GET".to_string(), "/api/users".to_string(), 200, 12, 0, 10);
    let evs = v.accept_snapshot(a.build_snapshot(10, 0));
    assert_eq!(evs.len(), 1);
    match &evs[0] {
        LogEvent::Http { entry, marker } => {
            assert_eq!(entry.path, "/api/users");
            assert_eq!(*marker, "\u{2713}");
        }
        _ => panic!("expected a request event"),
    }
}

#[test]
fn full_request_log_still_shows_new_requests() {
    let mut a = Analyzer::new();
    for i in 0..HTTP_LOG_MAX as u64 {
        a.record_http("GET".to_string(), "/x".to_string(), 200, 1, 0, i);
    }
    let mut v = ViewState::new(false);
    v.accept_snapshot(a.build_snapshot(1000, 0));
    a.record_http("GET".to_string(), "/y".to_string(), 200, 1, 0, 1001);
    let evs = v.accept_snapshot(a.build_snapshot(1002, 0));
    assert_eq!(evs.len(), 1);
    for (i, p) in ["/z1", "/z2", "/z3"].iter().enumerate() {
        a.record_http("POST".to_string(), p.to_string(), 201, 2, 5, 1003 + i as u64);
    }
    let evs = v.accept_snapshot(a.build_snapshot(1010, 0));
    let paths: Vec<String> = evs
        .iter()
        .map(|e| match e {
            LogEvent::Http { entry, .. } => entry.path.clone(),
            _ => panic!("expected requests only"),
        })
        .collect();
    assert_eq!(paths, vec!["/z1", "/z2", "/z3"]);
}

#[test]
fn clock_follows_updates() {
    let mut a = Analyzer::new();
    assert_eq!(a.clock_ms(), 0);
    take_snapshot(&mut a, table(&[]), 700);
    assert_eq!(a.clock_ms(), 700);
    a.step(CollectorEvent::ProcessSnapshot(processes()), 800, 0);
    assert_eq!(a.clock_ms(), 700);
    a.record_http("GET".to_string(), "/".to_string(), 200, 1, 0, 900);
    assert_eq!(a.clock_ms(), 900);
}
