use arch_live::analyzer::graph::Service;
use arch_live::collector::process::Runtime;
use arch_live::renderer::display::{
    badge_hue, clamped_selection, duration_hue, edge_is_hot, error_count_hue, hot_hue,
    list_name_hue, method_hue, newest_first, port_is_hot, port_sections, runtime_hue, status_hue,
    status_text, tail_start, visible_services, Hue,
};

fn svc(pid: u32, runtime: Runtime) -> Service {
    Service { pid, name: format!("s{}", pid), runtime, script: None, cwd: None, ports: vec![] }
}

#[test]
fn list_shows_node_and_bun_when_filtered() {
    let svcs = vec![
        svc(1, Runtime::Other("nginx".to_string())),
        svc(2, Runtime::Node),
        svc(3, Runtime::Bun),
        svc(4, Runtime::Other("redis".to_string())),
    ];
    assert_eq!(visible_services(&svcs, false), vec![0, 1, 2, 3]);
    assert_eq!(visible_services(&svcs, true), vec![1, 2]);
    assert!(visible_services(&vec![], true).is_empty());
}

#[test]
fn highlighted_row() {
    assert_eq!(clamped_selection(0, 0), None);
    assert_eq!(clamped_selection(5, 0), None);
    assert_eq!(clamped_selection(1, 3), Some(1));
    assert_eq!(clamped_selection(7, 3), Some(2));
}

#[test]
fn request_rows_newest_first() {
    assert_eq!(newest_first(5, 3), vec![4, 3, 2]);
    assert_eq!(newest_first(2, 10), vec![1, 0]);
    assert!(newest_first(0, 4).is_empty());
    assert!(newest_first(4, 0).is_empty());
}

#[test]
fn log_tail() {
    assert_eq!(tail_start(10, 4), 6);
    assert_eq!(tail_start(3, 4), 0);
    assert_eq!(tail_start(0, 0), 0);
}

#[test]
fn colours() {
    assert_eq!(method_hue("GET"), Hue::Green);
    assert_eq!(method_hue("POST"), Hue::Blue);
    assert_eq!(method_hue("PUT"), Hue::Yellow);
    assert_eq!(method_hue("PATCH"), Hue::Yellow);
    assert_eq!(method_hue("DELETE"), Hue::Red);
    assert_eq!(method_hue("get"), Hue::Gray);
    assert_eq!(duration_hue(1001), Hue::Red);
    assert_eq!(duration_hue(1000), Hue::Yellow);
    assert_eq!(duration_hue(301), Hue::Yellow);
    assert_eq!(duration_hue(300), Hue::Green);
    assert_eq!(status_hue(204), Hue::Green);
    assert_eq!(status_hue(304), Hue::Cyan);
    assert_eq!(status_hue(418), Hue::Yellow);
    assert_eq!(status_hue(599), Hue::Red);
    assert_eq!(status_hue(0), Hue::Gray);
    assert_eq!(badge_hue(&Runtime::Bun), Hue::Magenta);
    assert_eq!(badge_hue(&Runtime::Other("x".to_string())), Hue::DarkGray);
    assert_eq!(runtime_hue(&Runtime::Node), Hue::Green);
    assert_eq!(runtime_hue(&Runtime::Other("x".to_string())), Hue::Gray);
}

#[test]
fn status_column_text() {
    assert_eq!(status_text(200), "200  \u{2713}");
    assert_eq!(status_text(301), "301  \u{2192}");
    assert_eq!(status_text(404), "404  !");
    assert_eq!(status_text(502), "502  \u{2717}");
    assert_eq!(status_text(101), "101");
    assert_eq!(status_text(600), "600");
}

#[test]
fn port_section_count() {
    assert_eq!(port_sections(10), 3);
    assert_eq!(port_sections(2), 0);
}

#[test]
fn hot_rows_and_emphasis() {
    assert!(edge_is_hot(0) && edge_is_hot(2) && !edge_is_hot(3));
    assert!(port_is_hot(0) && !port_is_hot(1));
    assert_eq!(hot_hue(true), Hue::Yellow);
    assert_eq!(hot_hue(false), Hue::White);
    assert_eq!(error_count_hue(0), Hue::DarkGray);
    assert_eq!(error_count_hue(3), Hue::Red);
    assert_eq!(list_name_hue(&Runtime::Node), Hue::White);
    assert_eq!(list_name_hue(&Runtime::Bun), Hue::White);
    assert_eq!(list_name_hue(&Runtime::Other("x".to_string())), Hue::Gray);
}
