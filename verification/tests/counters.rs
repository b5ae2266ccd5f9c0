use std::collections::VecDeque;

use arch_live::analyzer::state::{
    evict_before_window, secs_since, EdgeState, PathState, PortState, EDGE_TTL_MS, RATE_WINDOW_MS,
    RATE_WINDOW_SECS,
};

#[test]
fn window_constants() {
    assert_eq!(RATE_WINDOW_MS, 10_000);
    assert_eq!(RATE_WINDOW_SECS, 10);
    assert_eq!(EDGE_TTL_MS, 60_000);
}

#[test]
fn eviction_keeps_events_in_the_window() {
    let mut q: VecDeque<u64> = VecDeque::from(vec![1_000, 5_000, 9_999, 10_000, 15_000]);
    evict_before_window(&mut q, 20_000);
    assert_eq!(q, VecDeque::from(vec![10_000, 15_000]));
    evict_before_window(&mut q, 20_000);
    assert_eq!(q, VecDeque::from(vec![10_000, 15_000]));
    // before the clock has run a whole window nothing is old
    let mut early: VecDeque<u64> = VecDeque::from(vec![0, 1]);
    evict_before_window(&mut early, 9_000);
    assert_eq!(early.len(), 2);
}

#[test]
fn eviction_stops_at_first_recent_event() {
    let mut q: VecDeque<u64> = VecDeque::from(vec![15_000, 1_000]);
    evict_before_window(&mut q, 20_000);
    assert_eq!(q, VecDeque::from(vec![15_000, 1_000]));
}

#[test]
fn whole_seconds_since() {
    assert_eq!(secs_since(1_000, 3_999), 2);
    assert_eq!(secs_since(5_000, 1_000), 0);
}

#[test]
fn edge_counter() {
    let mut e = EdgeState::new(7);
    assert_eq!((e.total_calls, e.last_seen, e.first_seen, e.recent_calls()), (0, 7, 7, 0));
    e.record_call(100);
    e.record_call(20_000);
    assert_eq!((e.total_calls, e.last_seen, e.first_seen, e.recent_calls()), (2, 20_000, 7, 2));
    e.evict_old_events(20_000);
    assert_eq!(e.recent_calls(), 1);
    assert_eq!(e.total_calls, 2);
}

#[test]
fn port_counter() {
    let mut p = PortState::new(42, 0);
    p.record_request(5);
    p.record_request(6);
    assert_eq!((p.pid, p.total_requests, p.last_seen, p.recent_requests()), (42, 2, 6, 2));
    p.evict_old_events(10_006);
    assert_eq!(p.recent_requests(), 1);
}

#[test]
fn path_counter() {
    let mut s = PathState::new();
    assert_eq!(s.avg_duration_ms(), 0);
    s.record(1, 200, 10);
    s.record(2, 404, 21);
    s.record(3, 503, 0);
    assert_eq!((s.total_calls, s.duration_sum_ms, s.last_status, s.error_count), (3, 31, 503, 2));
    assert_eq!(s.avg_duration_ms(), 10);
    s.evict_old(10_002);
    assert_eq!(s.recent.len(), 2);
    // only 4xx and 5xx are errors
    s.record(10_003, 600, 1);
    s.record(10_004, 399, 1);
    s.record(10_005, 599, 1);
    assert_eq!((s.total_calls, s.error_count), (6, 3));
}
