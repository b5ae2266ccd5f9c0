//! What the panels of the view show and in which colours: the services in
//! the list, the rows the request log has room for, and the colour classes
//! of methods, statuses, durations and runtimes.

use vstd::prelude::*;
use crate::analyzer::graph::Service;
use crate::collector::process::Runtime;
use crate::renderer::marker_of;
use crate::text::{append_str, dec_digits, u64_to_string};

verus! {

/// The colours the view draws with.
#[derive(Debug, Clone, Copy, PartialEq, Eq, Structural)]
pub enum Hue {
    Green,
    Blue,
    Cyan,
    Magenta,
    Yellow,
    Red,
    White,
    Gray,
    DarkGray,
}

/// Indices of the services the list shows, in order: all of them, or only
/// the Node/Bun ones.
pub open spec fn shown_indices(svcs: Seq<Service>, node_only: bool) -> Seq<usize>
    decreases svcs.len(),
{
    if svcs.len() == 0 {
        seq![]
    } else {
        let rest = shown_indices(svcs.drop_last(), node_only);
        let s = svcs.last();
        if !node_only || s.runtime is Node || s.runtime is Bun {
            rest.push((svcs.len() - 1) as usize)
        } else {
            rest
        }
    }
}

pub fn visible_services(svcs: &Vec<Service>, node_only: bool) -> (idx: Vec<usize>)
    ensures
        idx@ == shown_indices(svcs@, node_only),
{
    let mut idx: Vec<usize> = Vec::new();
    let mut i: usize = 0;
    while i < svcs.len()
        invariant
            i <= svcs@.len(),
            idx@ == shown_indices(svcs@.take(i as int), node_only),
        decreases svcs.len() - i,
    {
        assert(svcs@.take(i + 1).drop_last() =~= svcs@.take(i as int));
        if !node_only || svcs[i].is_node_or_bun() {
            idx.push(i);
        }
        i = i + 1;
    }
    assert(svcs@.take(i as int) =~= svcs@);
    idx
}

/// The row the list highlights: the selection, moved back to the last row
/// when the list is shorter; none when the list is empty.
pub fn clamped_selection(selected: usize, count: usize) -> (r: Option<usize>)
    ensures
        r == if count == 0 {
            None
        } else if selected < count {
            Some(selected)
        } else {
            Some((count - 1) as usize)
        },
{
    if count == 0 {
        None
    } else if selected < count {
        Some(selected)
    } else {
        Some(count - 1)
    }
}

/// Indices of the `visible` newest entries of a log of `len` entries,
/// newest first.
pub fn newest_first(len: usize, visible: usize) -> (idx: Vec<usize>)
    ensures
        idx@.len() == if visible < len {
            visible as int
        } else {
            len as int
        },
        forall|k: int| 0 <= k < idx@.len() ==> #[trigger] idx@[k] == len - 1 - k,
{
    let n = if visible < len {
        visible
    } else {
        len
    };
    let mut idx: Vec<usize> = Vec::new();
    let mut k: usize = 0;
    while k < n
        invariant
            n <= len,
            k <= n,
            idx@.len() == k,
            forall|j: int| 0 <= j < k ==> #[trigger] idx@[j] == len - 1 - j,
        decreases n - k,
    {
        idx.push(len - 1 - k);
        k = k + 1;
    }
    idx
}

/// Where the shown part of a log of `len` lines starts, when `visible`
/// lines fit: at its last `visible` lines.
pub fn tail_start(len: usize, visible: usize) -> (s: usize)
    ensures
        s == if visible < len {
            (len - visible) as usize
        } else {
            0
        },
{
    if visible < len {
        len - visible
    } else {
        0
    }
}

/// The colour of an HTTP method.
pub open spec fn method_hue_of(m: Seq<char>) -> Hue {
    if m == "GET"@ {
        Hue::Green
    } else if m == "POST"@ {
        Hue::Blue
    } else if m == "PUT"@ || m == "PATCH"@ {
        Hue::Yellow
    } else if m == "DELETE"@ {
        Hue::Red
    } else {
        Hue::Gray
    }
}

pub fn method_hue(method: &str) -> (h: Hue)
    ensures
        h == method_hue_of(method@),
{
    let v = crate::text::chars_of(method);
    if crate::text::chars_eq_str(&v, "GET") {
        Hue::Green
    } else if crate::text::chars_eq_str(&v, "POST") {
        Hue::Blue
    } else if crate::text::chars_eq_str(&v, "PUT") || crate::text::chars_eq_str(&v, "PATCH") {
        Hue::Yellow
    } else if crate::text::chars_eq_str(&v, "DELETE") {
        Hue::Red
    } else {
        Hue::Gray
    }
}

/// The colour of a request's duration: red over a second, yellow over
/// 300 ms, else green.
pub fn duration_hue(duration_ms: u64) -> (h: Hue)
    ensures
        h == if duration_ms > 1000 {
            Hue::Red
        } else if duration_ms > 300 {
            Hue::Yellow
        } else {
            Hue::Green
        },
{
    if duration_ms > 1000 {
        Hue::Red
    } else if duration_ms > 300 {
        Hue::Yellow
    } else {
        Hue::Green
    }
}

/// The colour of an HTTP status, by its class.
pub open spec fn status_hue_of(status: u16) -> Hue {
    if 200 <= status <= 299 {
        Hue::Green
    } else if 300 <= status <= 399 {
        Hue::Cyan
    } else if 400 <= status <= 499 {
        Hue::Yellow
    } else if 500 <= status <= 599 {
        Hue::Red
    } else {
        Hue::Gray
    }
}

pub fn status_hue(status: u16) -> (h: Hue)
    ensures
        h == status_hue_of(status),
{
    if 200 <= status && status <= 299 {
        Hue::Green
    } else if 300 <= status && status <= 399 {
        Hue::Cyan
    } else if 400 <= status && status <= 499 {
        Hue::Yellow
    } else if 500 <= status && status <= 599 {
        Hue::Red
    } else {
        Hue::Gray
    }
}

/// The status column of the request log: the code, two spaces and the
/// marker of its class; a code outside the classes alone.
pub open spec fn status_column(status: u16) -> Seq<char> {
    if 200 <= status <= 599 {
        dec_digits(status as nat) + "  "@ + marker_of(status)
    } else {
        dec_digits(status as nat)
    }
}

pub fn status_text(status: u16) -> (s: String)
    ensures
        s@ == status_column(status),
{
    let mut s = u64_to_string(status as u64);
    if 200 <= status && status <= 599 {
        append_str(&mut s, "  ");
        append_str(&mut s, crate::renderer::status_marker(status));
    }
    s
}

/// The colour of a runtime badge in the service list.
pub fn badge_hue(rt: &Runtime) -> (h: Hue)
    ensures
        h == match rt {
            Runtime::Node => Hue::Green,
            Runtime::Bun => Hue::Magenta,
            Runtime::Other(_) => Hue::DarkGray,
        },
{
    match rt {
        Runtime::Node => Hue::Green,
        Runtime::Bun => Hue::Magenta,
        Runtime::Other(_) => Hue::DarkGray,
    }
}

/// The colour of a service name in the call table.
pub fn runtime_hue(rt: &Runtime) -> (h: Hue)
    ensures
        h == match rt {
            Runtime::Node => Hue::Green,
            Runtime::Bun => Hue::Magenta,
            Runtime::Other(_) => Hue::Gray,
        },
{
    match rt {
        Runtime::Node => Hue::Green,
        Runtime::Bun => Hue::Magenta,
        Runtime::Other(_) => Hue::Gray,
    }
}

/// How many port sections of three rows fit in `height` rows.
pub fn port_sections(height: u16) -> (n: usize)
    ensures
        n == height / 3,
{
    (height / 3) as usize
}

/// An edge is hot, and drawn bright, when it was active in the last two
/// seconds.
pub fn edge_is_hot(idle_secs: u64) -> (b: bool)
    ensures
        b == (idle_secs <= 2),
{
    idle_secs <= 2
}

/// A port is hot, and drawn bright, when a request reached it within the
/// last second.
pub fn port_is_hot(idle_secs: u64) -> (b: bool)
    ensures
        b == (idle_secs == 0),
{
    idle_secs == 0
}

/// The colour of a count that is hot (yellow) or not (white).
pub fn hot_hue(hot: bool) -> (h: Hue)
    ensures
        h == if hot {
            Hue::Yellow
        } else {
            Hue::White
        },
{
    if hot {
        Hue::Yellow
    } else {
        Hue::White
    }
}

/// The colour of a path's error count: red once there is an error.
pub fn error_count_hue(count: u64) -> (h: Hue)
    ensures
        h == if count > 0 {
            Hue::Red
        } else {
            Hue::DarkGray
        },
{
    if count > 0 {
        Hue::Red
    } else {
        Hue::DarkGray
    }
}

/// The colour of a name in the service list: Node/Bun services stand out
/// in white (and bold), others are grey.
pub fn list_name_hue(rt: &Runtime) -> (h: Hue)
    ensures
        h == match rt {
            Runtime::Node | Runtime::Bun => Hue::White,
            Runtime::Other(_) => Hue::Gray,
        },
{
    match rt {
        Runtime::Node | Runtime::Bun => Hue::White,
        Runtime::Other(_) => Hue::Gray,
    }
}

} // verus!
