//! TCP socket table entries and the parsers of the kernel's socket tables.

use vstd::prelude::*;
use crate::text::{
    chars_of, find_char, first_index, lines, parse_uint, parse_uint_chars, slice_copy, split_lines,
    split_words, texts, words,
};

verus! {

/// State of a TCP connection
#[derive(Debug, Clone, Copy, PartialEq, Eq, Structural)]
pub enum ConnState {
    Listen,
    Established,
    TimeWait,
    CloseWait,
    Other(u8),
}

/// The state that a `st` code of the socket table stands for.
pub open spec fn state_of_code(code: u8) -> ConnState {
    if code == 0x01 {
        ConnState::Established
    } else if code == 0x0A {
        ConnState::Listen
    } else if code == 0x06 {
        ConnState::TimeWait
    } else if code == 0x08 {
        ConnState::CloseWait
    } else {
        ConnState::Other(code)
    }
}

impl ConnState {
    pub fn from_code(code: u8) -> (s: ConnState)
        ensures
            s == state_of_code(code),
    {
        match code {
            0x01 => ConnState::Established,
            0x0A => ConnState::Listen,
            0x06 => ConnState::TimeWait,
            0x08 => ConnState::CloseWait,
            other => ConnState::Other(other),
        }
    }
}

/// An IP address.
#[derive(Debug, Clone, Copy, PartialEq, Eq, Structural)]
pub enum IpAddress {
    /// An IPv4 address; its octets are the bytes of the word from the most
    /// significant down.
    V4(u32),
    /// An IPv6 address; its octets are the bytes of the word from the most
    /// significant down.
    V6(u128),
    /// An IPv4 address as the kernel's socket table prints it: one word
    /// holding the address in the host's byte order.
    HostV4(u32),
    /// An IPv6 address as the kernel's socket table prints it: four words,
    /// each holding four octets in the host's byte order.
    HostV6(u32, u32, u32, u32),
}

/// A single TCP connection (or listening socket) entry
#[derive(Debug, Clone, Copy, PartialEq, Eq, Structural)]
pub struct SocketConn {
    pub local_addr: IpAddress,
    pub local_port: u16,
    pub remote_addr: IpAddress,
    pub remote_port: u16,
    pub state: ConnState,
    /// Socket inode, used to map this connection back to a pid
    pub inode: u64,
}

impl SocketConn {
    pub fn is_listen(&self) -> (b: bool)
        ensures
            b == (self.state == ConnState::Listen),
    {
        self.state == ConnState::Listen
    }

    pub fn is_established(&self) -> (b: bool)
        ensures
            b == (self.state == ConnState::Established),
    {
        self.state == ConnState::Established
    }
}

/// The eight hex digits of word `i` of an IPv6 address column.
pub open spec fn v6_chunk(a: Seq<char>, i: int) -> Seq<char> {
    a.subrange(8 * i, 8 * i + 8)
}

pub open spec fn word_of(a: Seq<char>, i: int) -> Option<nat> {
    parse_uint(v6_chunk(a, i), 16, 0xffff_ffff)
}

/// An `address:port` column of the socket table, both parts in hex: eight
/// hex digits of IPv4 address or thirty-two of IPv6, then the port.
pub open spec fn hex_addr(s: Seq<char>, is_ipv6: bool) -> Option<(IpAddress, u16)> {
    let k = first_index(s, ':');
    if k >= s.len() {
        None
    } else {
        let a = s.take(k as int);
        match parse_uint(s.skip(k + 1 as int), 16, 0xffff) {
            None => None,
            Some(port) => if is_ipv6 {
                if a.len() != 32 {
                    None
                } else {
                    match (word_of(a, 0), word_of(a, 1), word_of(a, 2), word_of(a, 3)) {
                        (Some(w0), Some(w1), Some(w2), Some(w3)) => Some(
                            (
                                IpAddress::HostV6(w0 as u32, w1 as u32, w2 as u32, w3 as u32),
                                port as u16,
                            ),
                        ),
                        _ => None,
                    }
                }
            } else {
                if a.len() != 8 {
                    None
                } else {
                    match parse_uint(a, 16, 0xffff_ffff) {
                        Some(w) => Some((IpAddress::HostV4(w as u32), port as u16)),
                        None => None,
                    }
                }
            },
        }
    }
}

fn hex_word(a: &Vec<char>, i: usize) -> (res: Option<u32>)
    requires
        a@.len() == 32,
        i < 4,
    ensures
        match word_of(a@, i as int) {
            Some(v) => res == Some(v as u32),
            None => res is None,
        },
{
    let c = slice_copy(a, 8 * i, 8 * i + 8);
    match parse_uint_chars(&c, 16, 0xffff_ffff) {
        Some(v) => Some(v as u32),
        None => None,
    }
}

/// Parse a hex-encoded `address:port` pair of the socket table.
pub fn parse_hex_addr(s: &Vec<char>, is_ipv6: bool) -> (res: Option<(IpAddress, u16)>)
    ensures
        res == hex_addr(s@, is_ipv6),
{
    let k = find_char(s, ':');
    if k >= s.len() {
        return None;
    }
    let a = slice_copy(s, 0, k);
    let p = slice_copy(s, k + 1, s.len());
    assert(a@ =~= s@.take(k as int));
    assert(p@ =~= s@.skip(k + 1 as int));
    let port = match parse_uint_chars(&p, 16, 0xffff) {
        Some(v) => v as u16,
        None => return None,
    };
    if is_ipv6 {
        if a.len() != 32 {
            return None;
        }
        let w0 = match hex_word(&a, 0) {
            Some(w) => w,
            None => return None,
        };
        let w1 = match hex_word(&a, 1) {
            Some(w) => w,
            None => return None,
        };
        let w2 = match hex_word(&a, 2) {
            Some(w) => w,
            None => return None,
        };
        let w3 = match hex_word(&a, 3) {
            Some(w) => w,
            None => return None,
        };
        Some((IpAddress::HostV6(w0, w1, w2, w3), port))
    } else {
        if a.len() != 8 {
            return None;
        }
        match parse_uint_chars(&a, 16, 0xffff_ffff) {
            Some(w) => Some((IpAddress::HostV4(w as u32), port)),
            None => None,
        }
    }
}

/// One line of `/proc/net/tcp[6]`: columns `sl local_address rem_address
/// st ... inode`, at least ten of them.
pub open spec fn tcp_line(line: Seq<char>, is_ipv6: bool) -> Option<SocketConn> {
    let cols = words(line);
    if cols.len() < 10 {
        None
    } else {
        match (
            hex_addr(cols[1], is_ipv6),
            hex_addr(cols[2], is_ipv6),
            parse_uint(cols[3], 16, 0xff),
            parse_uint(cols[9], 10, 0xffff_ffff_ffff_ffff),
        ) {
            (Some(local), Some(remote), Some(st), Some(inode)) => Some(
                SocketConn {
                    local_addr: local.0,
                    local_port: local.1,
                    remote_addr: remote.0,
                    remote_port: remote.1,
                    state: state_of_code(st as u8),
                    inode: inode as u64,
                },
            ),
            _ => None,
        }
    }
}

fn tcp_line_chars(line: &Vec<char>, is_ipv6: bool) -> (res: Option<SocketConn>)
    ensures
        res == tcp_line(line@, is_ipv6),
{
    let cols = split_words(line);
    if cols.len() < 10 {
        return None;
    }
    assert(cols@[1]@ == words(line@)[1]);
    assert(cols@[2]@ == words(line@)[2]);
    assert(cols@[3]@ == words(line@)[3]);
    assert(cols@[9]@ == words(line@)[9]);
    let local = match parse_hex_addr(&cols[1], is_ipv6) {
        Some(v) => v,
        None => return None,
    };
    let remote = match parse_hex_addr(&cols[2], is_ipv6) {
        Some(v) => v,
        None => return None,
    };
    let state_byte = match parse_uint_chars(&cols[3], 16, 0xff) {
        Some(v) => v as u8,
        None => return None,
    };
    let inode = match parse_uint_chars(&cols[9], 10, 0xffff_ffff_ffff_ffff) {
        Some(v) => v,
        None => return None,
    };
    Some(
        SocketConn {
            local_addr: local.0,
            local_port: local.1,
            remote_addr: remote.0,
            remote_port: remote.1,
            state: ConnState::from_code(state_byte),
            inode,
        },
    )
}

/// Parse one line of `/proc/net/tcp` (or `tcp6` when `is_ipv6`).
pub fn parse_tcp_line(line: &str, is_ipv6: bool) -> (res: Option<SocketConn>)
    ensures
        res == tcp_line(line@, is_ipv6),
{
    let v = chars_of(line);
    tcp_line_chars(&v, is_ipv6)
}

/// Whether a connection passes the port filter: it has the port at one end.
pub open spec fn passes_filter(c: SocketConn, port_filter: Option<u16>) -> bool {
    match port_filter {
        Some(pf) => c.local_port == pf || c.remote_port == pf,
        None => true,
    }
}

/// Whether a connection passes the port filter: always without one, and
/// with one when the port is its local or its remote port.
pub fn conn_passes(c: &SocketConn, port_filter: Option<u16>) -> (b: bool)
    ensures
        b == passes_filter(*c, port_filter),
        port_filter is None ==> b,
        port_filter matches Some(pf) ==> (b <==> (c.local_port == pf || c.remote_port == pf)),
{
    match port_filter {
        Some(pf) => c.local_port == pf || c.remote_port == pf,
        None => true,
    }
}

/// The connections of the table lines `ls` that parse and pass the filter.
pub open spec fn kept_conns(ls: Seq<Seq<char>>, is_ipv6: bool, port_filter: Option<u16>) -> Seq<
    SocketConn,
>
    decreases ls.len(),
{
    if ls.len() == 0 {
        seq![]
    } else {
        let rest = kept_conns(ls.drop_last(), is_ipv6, port_filter);
        match tcp_line(ls.last(), is_ipv6) {
            Some(c) => if passes_filter(c, port_filter) {
                rest.push(c)
            } else {
                rest
            },
            None => rest,
        }
    }
}

/// With a port filter `pf`, exactly the connections that have `pf` as their
/// local or their remote port are kept: each kept one has it at one end, and
/// each line that parses to one with `pf` at either end is kept.
pub proof fn law_port_filter(ls: Seq<Seq<char>>, is_ipv6: bool, pf: u16)
    ensures
        forall|i: int|
            0 <= i < kept_conns(ls, is_ipv6, Some(pf)).len() ==> {
                let c = #[trigger] kept_conns(ls, is_ipv6, Some(pf))[i];
                c.local_port == pf || c.remote_port == pf
            },
        forall|j: int|
            0 <= j < ls.len() && (#[trigger] tcp_line(ls[j], is_ipv6)) is Some && ((tcp_line(
                ls[j],
                is_ipv6,
            )->0).local_port == pf || (tcp_line(ls[j], is_ipv6)->0).remote_port == pf) ==> kept_conns(
                ls,
                is_ipv6,
                Some(pf),
            ).contains(tcp_line(ls[j], is_ipv6)->0),
    decreases ls.len(),
{
    if ls.len() > 0 {
        let rest = ls.drop_last();
        law_port_filter(rest, is_ipv6, pf);
        let kr = kept_conns(rest, is_ipv6, Some(pf));
        let k = kept_conns(ls, is_ipv6, Some(pf));
        assert forall|i: int| 0 <= i < k.len() implies {
            let c = #[trigger] k[i];
            c.local_port == pf || c.remote_port == pf
        } by {
            if i < kr.len() {
                assert(k[i] == kr[i]);
            }
        }
        assert forall|j: int|
            0 <= j < ls.len() && (#[trigger] tcp_line(ls[j], is_ipv6)) is Some && ((tcp_line(
                ls[j],
                is_ipv6,
            )->0).local_port == pf || (tcp_line(ls[j], is_ipv6)->0).remote_port == pf)
            implies k.contains(tcp_line(ls[j], is_ipv6)->0) by {
            let c = tcp_line(ls[j], is_ipv6)->0;
            if j < ls.len() - 1 {
                assert(rest[j] == ls[j]);
                assert(tcp_line(rest[j], is_ipv6) is Some);
                let m = choose|m: int| 0 <= m < kr.len() && kr[m] == c;
                assert(k[m] == c);
            } else {
                assert(k.last() == c);
            }
        }
    }
}

/// The lines of a socket table after its header line.
pub open spec fn table_rows(content: Seq<char>) -> Seq<Seq<char>> {
    let ls = lines(content);
    if ls.len() == 0 {
        ls
    } else {
        ls.skip(1)
    }
}

/// The connections of the content of a socket table file.
pub open spec fn tcp_table(content: Seq<char>, is_ipv6: bool, port_filter: Option<u16>) -> Seq<
    SocketConn,
> {
    kept_conns(table_rows(content), is_ipv6, port_filter)
}

/// The port filter on a whole socket table file: with `pf`, each connection
/// read has `pf` at one end, and each line after the header that parses to a
/// connection with `pf` as its local or remote port is read.
pub proof fn law_table_port_filter(content: Seq<char>, is_ipv6: bool, pf: u16)
    ensures
        forall|i: int|
            0 <= i < tcp_table(content, is_ipv6, Some(pf)).len() ==> {
                let c = #[trigger] tcp_table(content, is_ipv6, Some(pf))[i];
                c.local_port == pf || c.remote_port == pf
            },
        forall|j: int|
            0 <= j < table_rows(content).len() && (#[trigger] tcp_line(
                table_rows(content)[j],
                is_ipv6,
            )) is Some && ((tcp_line(table_rows(content)[j], is_ipv6)->0).local_port == pf || (
            tcp_line(table_rows(content)[j], is_ipv6)->0).remote_port == pf) ==> tcp_table(
                content,
                is_ipv6,
                Some(pf),
            ).contains(tcp_line(table_rows(content)[j], is_ipv6)->0),
{
    law_port_filter(table_rows(content), is_ipv6, pf);
}

/// Appends the connections that the content of `/proc/net/tcp` (or `tcp6`)
/// lists to `out`: every line after the header that parses, and that has
/// the filter port at one end when a filter is given.
pub fn parse_proc_net_tcp(
    content: &str,
    is_ipv6: bool,
    port_filter: Option<u16>,
    out: &mut Vec<SocketConn>,
)
    ensures
        final(out)@ == old(out)@ + tcp_table(content@, is_ipv6, port_filter),
{
    let cv = chars_of(content);
    let ls = split_lines(&cv);
    let ghost rows = table_rows(content@);
    let ghost start = out@;
    if ls.len() == 0 {
        assert(start + tcp_table(content@, is_ipv6, port_filter) =~= start);
        return;
    }
    let mut i: usize = 1;
    assert(rows.take(0) =~= Seq::<Seq<char>>::empty());
    assert(start + kept_conns(rows.take(0), is_ipv6, port_filter) =~= out@);
    while i < ls.len()
        invariant
            1 <= i <= ls@.len(),
            texts(ls@) == lines(content@),
            rows == texts(ls@).skip(1),
            out@ == start + kept_conns(rows.take(i - 1), is_ipv6, port_filter),
        decreases ls.len() - i,
    {
        let ghost pre = rows.take(i - 1);
        let ghost next = rows.take(i as int);
        assert(next.drop_last() =~= pre);
        assert(next.last() == ls@[i as int]@);
        match tcp_line_chars(&ls[i], is_ipv6) {
            Some(conn) => {
                let keep = match port_filter {
                    Some(pf) => conn.local_port == pf || conn.remote_port == pf,
                    None => true,
                };
                if keep {
                    out.push(conn);
                }
            },
            None => {},
        }
        i = i + 1;
    }
    assert(rows.take(i - 1) =~= rows);
}

} // verus!
