//! What is known about the processes and connections of the machine.

pub mod process;
pub mod socket;
pub mod macos;
pub mod node_bun;

use vstd::prelude::*;
use crate::collector::process::ProcessInfo;
use crate::collector::socket::SocketConn;

verus! {

/// Events the collectors hand to the analyzer
#[derive(Debug, Clone)]
pub enum CollectorEvent {
    /// A snapshot of all discovered services this tick
    ProcessSnapshot(Vec<ProcessInfo>),
    /// A snapshot of all active TCP connections this tick
    ConnectionSnapshot(Vec<SocketConn>),
    /// A single HTTP request intercepted by the tap proxy
    HttpRequest {
        method: String,
        path: String,
        status: u16,
        duration_ms: u64,
        /// Milliseconds since the Unix epoch (UTC)
        timestamp: i64,
    },
}

/// What the process and socket scanners are asked to do each tick.
pub struct Collector {
    pub refresh_ms: u64,
    pub port_filter: Option<u16>,
    pub node_only: bool,
}

impl Collector {
    pub fn new(refresh_ms: u64, port_filter: Option<u16>, node_only: bool) -> (c: Self)
        ensures
            c.refresh_ms == refresh_ms,
            c.port_filter == port_filter,
            c.node_only == node_only,
    {
        Self { refresh_ms, port_filter, node_only }
    }
}

} // verus!
