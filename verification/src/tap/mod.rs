//! Decisions of the HTTP tap, the reverse proxy that forwards each request
//! to the target port and reports it.

use vstd::prelude::*;
use crate::text::{append_str, dec_digits, string_from, u64_to_string};

verus! {

/// Status reported for a request the target could not answer.
pub const BAD_GATEWAY: u16 = 502;

/// Whether a request header is passed on to the target: `Host` is set
/// anew, and connection-level headers are dropped. Header names are given
/// in lower case, as HTTP libraries normalise them.
pub open spec fn keeps_request_header_spec(name: Seq<char>) -> bool {
    !(name == "host"@ || name == "connection"@ || name == "keep-alive"@ || name
        == "proxy-connection"@)
}

pub fn keeps_request_header(name: &str) -> (b: bool)
    ensures
        b == keeps_request_header_spec(name@),
{
    let v = crate::text::chars_of(name);
    !(crate::text::chars_eq_str(&v, "host") || crate::text::chars_eq_str(&v, "connection")
        || crate::text::chars_eq_str(&v, "keep-alive") || crate::text::chars_eq_str(
        &v,
        "proxy-connection",
    ))
}

/// Whether a response header is passed back: the body is sent whole, so
/// `Transfer-Encoding` is dropped.
pub fn keeps_response_header(name: &str) -> (b: bool)
    ensures
        b == (name@ != "transfer-encoding"@),
{
    let v = crate::text::chars_of(name);
    !crate::text::chars_eq_str(&v, "transfer-encoding")
}

/// The path and query a request is reported and forwarded with ("/" when
/// the request line has none).
pub fn request_path(path_and_query: Option<&str>) -> (p: String)
    ensures
        p@ == match path_and_query {
            Some(pq) => pq@,
            None => "/"@,
        },
{
    match path_and_query {
        Some(pq) => string_from(pq),
        None => string_from("/"),
    }
}

/// The `Host` of the target: the loopback address and the target port.
pub fn target_authority(port: u16) -> (a: String)
    ensures
        a@ == "127.0.0.1:"@ + dec_digits(port as nat),
{
    let mut a = string_from("127.0.0.1:");
    let d = u64_to_string(port as u64);
    append_str(&mut a, d.as_str());
    a
}

/// The URI a request is forwarded to.
pub fn target_uri(port: u16, path_and_query: Option<&str>) -> (u: String)
    ensures
        u@ == "http://"@ + "127.0.0.1:"@ + dec_digits(port as nat) + match path_and_query {
            Some(pq) => pq@,
            None => "/"@,
        },
{
    let mut u = string_from("http://");
    let a = target_authority(port);
    append_str(&mut u, a.as_str());
    let p = request_path(path_and_query);
    append_str(&mut u, p.as_str());
    u
}

/// The status reported for a request: the target's, or 502 when
/// forwarding failed.
pub fn reported_status(upstream: Option<u16>) -> (s: u16)
    ensures
        s == match upstream {
            Some(x) => x,
            None => BAD_GATEWAY,
        },
{
    match upstream {
        Some(x) => x,
        None => BAD_GATEWAY,
    }
}

} // verus!
