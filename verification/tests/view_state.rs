use arch_live::analyzer::graph::{Edge, GraphSnapshot, HttpEntry, PortStat, Service};
use arch_live::collector::process::Runtime;
use arch_live::renderer::{
    edge_event_line, http_event_line, key_for_char, port_event_line, stamped_line, status_marker, KeyAction,
    KeyOutcome, LogEvent, ViewState, EVENT_LOG_MAX,
};

fn svc(pid: u32, name: &str) -> Service {
    Service { pid, name: name.to_string(), runtime: Runtime::Node, script: None, cwd: None, ports: vec![] }
}

fn entry(path: &str, status: u16) -> HttpEntry {
    HttpEntry { method: "GET".to_string(), path: path.to_string(), status, duration_ms: 5, timestamp: 0 }
}

fn port_stat(port: u16, total: u64) -> PortStat {
    PortStat {
        port,
        pid: 1,
        service_name: "api".to_string(),
        total_requests: total,
        recent_requests: 0,
        window_secs: 10,
        active_connections: 0,
        idle_secs: 0,
    }
}

fn edge(src: u32, dst: u32, total: u64) -> Edge {
    Edge { src_pid: src, dst_pid: dst, total_calls: total, recent_calls: 0, window_secs: 10, idle_secs: 0 }
}

fn snap(n_services: u32, log: Vec<HttpEntry>, ports: Vec<PortStat>, edges: Vec<Edge>) -> GraphSnapshot {
    GraphSnapshot {
        services: (1..=n_services).map(|p| svc(p, &format!("s{}", p))).collect(),
        edges,
        port_stats: ports,
        http_log: log,
        path_stats: vec![],
        tap_listen_port: None,
        timestamp: 0,
    }
}

#[test]
fn markers_of_statuses() {
    assert_eq!(status_marker(200), "\u{2713}");
    assert_eq!(status_marker(302), "\u{2192}");
    assert_eq!(status_marker(404), "!");
    assert_eq!(status_marker(500), "\u{2717}");
    assert_eq!(status_marker(101), "?");
}

#[test]
fn quit_refresh_and_other_keys() {
    let mut v = ViewState::new(false);
    assert_eq!(v.on_key(KeyAction::Quit), KeyOutcome::Quit);
    assert_eq!(v.on_key(KeyAction::Ignore), KeyOutcome::Continue);
    v.accept_snapshot(snap(2, vec![], vec![], vec![]));
    assert_eq!(v.on_key(KeyAction::Refresh), KeyOutcome::Continue);
    assert!(v.last_snapshot.is_none());
}

#[test]
fn toggle_twice_restores_filter() {
    let mut v = ViewState::new(true);
    assert_eq!(v.on_key(KeyAction::ToggleNodeOnly), KeyOutcome::Log("Node/Bun-only view: OFF".to_string()));
    assert!(!v.node_only);
    assert_eq!(v.on_key(KeyAction::ToggleNodeOnly), KeyOutcome::Log("Node/Bun-only view: ON".to_string()));
    assert!(v.node_only);
}

#[test]
fn arrows_stay_within_the_list() {
    let mut v = ViewState::new(false);
    v.on_key(KeyAction::Down);
    assert_eq!(v.selected_idx, 0);
    v.accept_snapshot(snap(3, vec![], vec![], vec![]));
    v.on_key(KeyAction::Down);
    v.on_key(KeyAction::Down);
    v.on_key(KeyAction::Down);
    assert_eq!(v.selected_idx, 2);
    v.on_key(KeyAction::Up);
    assert_eq!(v.selected_idx, 1);
    v.on_key(KeyAction::Down);
    assert_eq!(v.selected_idx, 2);
    v.on_key(KeyAction::Up);
    v.on_key(KeyAction::Up);
    v.on_key(KeyAction::Up);
    assert_eq!(v.selected_idx, 0);
}

#[test]
fn event_log_keeps_newest_lines() {
    let mut v = ViewState::new(false);
    for i in 0..(EVENT_LOG_MAX + 3) {
        v.log_line(format!("line {}", i));
    }
    assert_eq!(v.event_log.len(), EVENT_LOG_MAX);
    assert_eq!(v.event_log[0], "line 3");
    assert_eq!(v.event_log[EVENT_LOG_MAX - 1], format!("line {}", EVENT_LOG_MAX + 2));
}

#[test]
fn first_snapshot_logs_deltas_but_no_requests() {
    let mut v = ViewState::new(false);
    let evs = v.accept_snapshot(snap(2, vec![entry("/a", 200)], vec![port_stat(3000, 2)], vec![edge(1, 2, 3)]));
    assert_eq!(evs.len(), 2);
    match &evs[0] {
        LogEvent::PortRequests { stat, new_requests } => {
            assert_eq!(stat.port, 3000);
            assert_eq!(*new_requests, 2);
        }
        _ => panic!("expected port requests"),
    }
    match &evs[1] {
        LogEvent::EdgeCalls { edge, src, dst, new_calls } => {
            assert_eq!((edge.src_pid, edge.dst_pid), (1, 2));
            assert_eq!(src, "s1");
            assert_eq!(dst, "s2");
            assert_eq!(*new_calls, 3);
        }
        _ => panic!("expected edge calls"),
    }
}

#[test]
fn later_snapshot_logs_only_what_is_new() {
    let mut v = ViewState::new(false);
    v.accept_snapshot(snap(2, vec![entry("/a", 200)], vec![port_stat(3000, 2)], vec![edge(1, 2, 3)]));
    let evs = v.accept_snapshot(snap(
        2,
        vec![entry("/a", 200), entry("/b", 404), entry("/c", 503)],
        vec![port_stat(3000, 2), port_stat(8080, 1)],
        vec![edge(1, 2, 5), edge(2, 9, 1)],
    ));
    assert_eq!(evs.len(), 5);
    match (&evs[0], &evs[1]) {
        (LogEvent::Http { entry: e1, marker: m1 }, LogEvent::Http { entry: e2, marker: m2 }) => {
            assert_eq!((e1.path.as_str(), *m1), ("/b", "!"));
            assert_eq!((e2.path.as_str(), *m2), ("/c", "\u{2717}"));
        }
        _ => panic!("expected two requests"),
    }
    match &evs[2] {
        LogEvent::PortRequests { stat, new_requests } => assert_eq!((stat.port, *new_requests), (8080, 1)),
        _ => panic!("expected port requests"),
    }
    match (&evs[3], &evs[4]) {
        (
            LogEvent::EdgeCalls { new_calls: n1, .. },
            LogEvent::EdgeCalls { dst: d2, new_calls: n2, .. },
        ) => {
            assert_eq!(*n1, 2);
            assert_eq!(*n2, 1);
            assert_eq!(d2, "pid:9");
        }
        _ => panic!("expected edge calls"),
    }
}

#[test]
fn counters_going_down_log_nothing() {
    let mut v = ViewState::new(false);
    v.accept_snapshot(snap(2, vec![entry("/a", 200), entry("/b", 200)], vec![port_stat(3000, 9)], vec![edge(1, 2, 9)]));
    let evs = v.accept_snapshot(snap(2, vec![entry("/b", 200)], vec![port_stat(3000, 4)], vec![edge(1, 2, 1)]));
    assert!(evs.is_empty());
}

#[test]
fn event_lines_text() {
    let e = HttpEntry { method: "POST".to_string(), path: "/api/orders".to_string(), status: 201, duration_ms: 34, timestamp: 0 };
    assert_eq!(http_event_line(&e, "\u{2713}", "34ms"), "POST /api/orders 201  \u{2713} (34ms)");
    let mut p = port_stat(3000, 7);
    p.active_connections = 2;
    assert_eq!(
        port_event_line(&p, 1, "< 0.1/s"),
        "\u{2192} :3000 (api)  +1 request  total: 7  rate: < 0.1/s  active: 2"
    );
    assert_eq!(
        port_event_line(&p, 3, "0.3/s"),
        "\u{2192} :3000 (api)  +3 requests  total: 7  rate: 0.3/s  active: 2"
    );
    assert_eq!(
        edge_event_line("index", "server", 4, 10, "0.4/s"),
        "  index \u{2194} server  +4  (total: 10  rate: 0.4/s)"
    );
    assert_eq!(stamped_line("14:32:01", "hello"), "[14:32:01] hello");
}

#[test]
fn character_keys() {
    assert_eq!(key_for_char('q'), KeyAction::Quit);
    assert_eq!(key_for_char('r'), KeyAction::Refresh);
    assert_eq!(key_for_char('n'), KeyAction::ToggleNodeOnly);
    assert_eq!(key_for_char('Q'), KeyAction::Ignore);
    assert_eq!(key_for_char('x'), KeyAction::Ignore);
}

#[test]
fn requests_after_the_shared_part_of_the_log_are_new() {
    let mut v = ViewState::new(false);
    v.accept_snapshot(snap(0, vec![entry("/a", 200), entry("/b", 200), entry("/c", 200)], vec![], vec![]));
    // the two oldest entries left the front, two new ones came
    let evs = v.accept_snapshot(snap(0, vec![entry("/c", 200), entry("/d", 201), entry("/e", 500)], vec![], vec![]));
    let paths: Vec<String> = evs
        .iter()
        .map(|e| match e {
            LogEvent::Http { entry, .. } => entry.path.clone(),
            _ => panic!("expected requests only"),
        })
        .collect();
    assert_eq!(paths, vec!["/d", "/e"]);
    // nothing new
    let evs = v.accept_snapshot(snap(0, vec![entry("/c", 200), entry("/d", 201), entry("/e", 500)], vec![], vec![]));
    assert!(evs.is_empty());
}
