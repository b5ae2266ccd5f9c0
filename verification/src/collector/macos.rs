//! Parsers of the text that `ps`, `lsof` and `netstat` print, the sources
//! of process and socket data where there is no `/proc`.

use vstd::prelude::*;
use crate::analyzer::connections::{first_with_pid, lemma_first_with_pid, lemma_same_pids};
use crate::collector::process::{
    classify, classify_runtime, derive_service_name, extract_script, first_script, ProcessInfo,
    Runtime, RuntimeModel, service_name_of, string_texts,
};
use crate::collector::socket::{ConnState, IpAddress, SocketConn};
use crate::text::{
    after_last, after_last_char, chars_eq_str, chars_of, find_char, first_index, has_prefix, lines,
    parse_uint, parse_uint_chars, slice_copy, split_lines, split_words, string_of, texts,
    trim, trim_chars, trim_start, trim_start_chars, words,
};

verus! {

/// The fields of a `ps -eo pid,comm,args` line: the line without leading
/// whitespace, split at its first two spaces (`splitn(3, ' ')`).
pub open spec fn ps_fields(line: Seq<char>) -> Seq<Seq<char>> {
    let t = trim_start(line);
    let k1 = first_index(t, ' ');
    if k1 >= t.len() {
        seq![t]
    } else {
        let r = t.skip(k1 + 1 as int);
        let k2 = first_index(r, ' ');
        if k2 >= r.len() {
            seq![t.take(k1 as int), r]
        } else {
            seq![t.take(k1 as int), r.take(k2 as int), r.skip(k2 + 1 as int)]
        }
    }
}

/// One process as a `ps` line gives it.
#[derive(Debug, Clone)]
pub struct PsRow {
    pub pid: u32,
    /// The executable's base name
    pub name: String,
    pub runtime: Runtime,
    /// The whitespace-separated words of the command line
    pub args: Vec<String>,
}

/// The executable name of a `ps` line (its last path component).
pub open spec fn ps_name(line: Seq<char>) -> Seq<char> {
    after_last(trim(ps_fields(line)[1]), '/')
}

/// The command-line words of a `ps` line.
pub open spec fn ps_args(line: Seq<char>) -> Seq<Seq<char>> {
    let f = ps_fields(line);
    if f.len() > 2 {
        words(f[2])
    } else {
        seq![]
    }
}

/// Whether a `ps` line yields a process: it has a second field, its first
/// is a pid, and it passes the Node/Bun filter.
pub open spec fn ps_admitted(line: Seq<char>, node_only: bool) -> bool {
    let f = ps_fields(line);
    &&& f.len() >= 2
    &&& parse_uint(trim(f[0]), 10, 0xffff_ffff) is Some
    &&& (!node_only || classify(ps_name(line)) is Node || classify(ps_name(line)) is Bun)
}

/// `r` is the process that `ps` line `line` gives.
pub open spec fn ps_row_matches(r: PsRow, line: Seq<char>) -> bool {
    &&& r.pid as nat == parse_uint(trim(ps_fields(line)[0]), 10, 0xffff_ffff)->0
    &&& r.name@ == ps_name(line)
    &&& r.runtime@ == classify(ps_name(line))
    &&& string_texts(r.args@) == ps_args(line)
}

/// Parse one line of `ps -eo pid,comm,args` output.
pub fn ps_row(line: &str, node_only: bool) -> (res: Option<PsRow>)
    ensures
        res is Some <==> ps_admitted(line@, node_only),
        res matches Some(r) ==> ps_row_matches(r, line@),
{
    let v = chars_of(line);
    ps_row_chars(&v, node_only)
}

fn ps_row_chars(v: &Vec<char>, node_only: bool) -> (res: Option<PsRow>)
    ensures
        res is Some <==> ps_admitted(v@, node_only),
        res matches Some(r) ==> ps_row_matches(r, v@),
{
    let t = trim_start_chars(v);
    let k1 = find_char(&t, ' ');
    if k1 >= t.len() {
        return None;
    }
    let first = slice_copy(&t, 0, k1);
    let r = slice_copy(&t, k1 + 1, t.len());
    assert(first@ =~= t@.take(k1 as int));
    assert(r@ =~= t@.skip(k1 + 1 as int));
    let k2 = find_char(&r, ' ');
    let second = slice_copy(&r, 0, k2);
    assert(second@ =~= if k2 >= r@.len() {
        r@
    } else {
        r@.take(k2 as int)
    });
    let pid_text = trim_chars(&first);
    let pid = match parse_uint_chars(&pid_text, 10, 0xffff_ffff) {
        Some(p) => p as u32,
        None => return None,
    };
    let comm = trim_chars(&second);
    let base = after_last_char(&comm, '/');
    let name = string_of(&base);
    let runtime = classify_runtime(name.as_str());
    if node_only && !runtime.is_node_or_bun() {
        return None;
    }
    let mut args: Vec<String> = Vec::new();
    if k2 < r.len() {
        let rest = slice_copy(&r, k2 + 1, r.len());
        assert(rest@ =~= r@.skip(k2 + 1 as int));
        let ws = split_words(&rest);
        let mut i: usize = 0;
        while i < ws.len()
            invariant
                i <= ws@.len(),
                args@.len() == i,
                string_texts(args@) == texts(ws@).take(i as int),
            decreases ws.len() - i,
        {
            let ghost prev = args@;
            args.push(string_of(&ws[i]));
            proof {
                assert forall|m: int| 0 <= m < i + 1 implies #[trigger] string_texts(args@)[m]
                    == texts(ws@).take(i + 1)[m] by {
                    if m < i {
                        assert(args@[m] == prev[m]);
                        assert(string_texts(prev)[m] == texts(ws@).take(i as int)[m]);
                    }
                }
            }
            i = i + 1;
            assert(string_texts(args@) =~= texts(ws@).take(i as int));
        }
        assert(texts(ws@).take(i as int) =~= texts(ws@));
    } else {
        assert(string_texts(args@) =~= Seq::<Seq<char>>::empty());
    }
    Some(PsRow { pid, name, runtime, args })
}

/// The process of a `ps` row, with the working directory found for it.
pub fn ps_process(row: PsRow, cwd: Option<String>) -> (p: ProcessInfo)
    ensures
        p.pid == row.pid,
        p.name == row.name,
        p.runtime == row.runtime,
        p.script.deep_view() == first_script(string_texts(row.args@), 1, row.runtime is Bun),
        p.cwd == cwd,
        p.service_name@ == service_name_of(p.script.deep_view(), cwd.deep_view(), row.name@),
        p.ports@.len() == 0,
        p.socket_inodes@.len() == 0,
{
    let script = extract_script(&row.args, &row.runtime);
    let service_name = derive_service_name(&script, &cwd, row.name.as_str());
    ProcessInfo {
        pid: row.pid,
        name: row.name,
        runtime: row.runtime,
        script,
        cwd,
        service_name,
        ports: Vec::new(),
        socket_inodes: Vec::new(),
    }
}

/// The port of an `lsof` name such as `*:3000`, `127.0.0.1:3000` or
/// `[::1]:3000`: the text after the last `:`, without trailing `]`s.
pub open spec fn lsof_port(name: Seq<char>) -> Option<nat> {
    parse_uint(trim_brackets(after_last(name, ':')), 10, 0xffff)
}

/// `s` without its trailing `]` characters.
pub open spec fn trim_brackets(s: Seq<char>) -> Seq<char>
    decreases s.len(),
{
    if s.len() > 0 && s.last() == ']' {
        trim_brackets(s.drop_last())
    } else {
        s
    }
}

/// The state reached after the lines `ls` of `lsof -F pn` output: the pid
/// of the last `p` line, and the `(pid, port)` of each `n` line with a
/// port that follows a `p` line with a pid.
pub open spec fn lsof_scan(ls: Seq<Seq<char>>) -> (Option<u32>, Seq<(u32, u16)>)
    decreases ls.len(),
{
    if ls.len() == 0 {
        (None, seq![])
    } else {
        let (cur, out) = lsof_scan(ls.drop_last());
        let l = ls.last();
        if has_prefix(l, "p"@) {
            (
                match parse_uint(l.skip(1), 10, 0xffff_ffff) {
                    Some(p) => Some(p as u32),
                    None => None,
                },
                out,
            )
        } else if has_prefix(l, "n"@) {
            match (lsof_port(l.skip(1)), cur) {
                (Some(port), Some(pid)) => (cur, out.push((pid, port as u16))),
                _ => (cur, out),
            }
        } else {
            (cur, out)
        }
    }
}

fn trim_brackets_chars(s: &Vec<char>) -> (r: Vec<char>)
    ensures
        r@ == trim_brackets(s@),
{
    let mut e = s.len();
    assert(s@.take(e as int) =~= s@);
    while e > 0 && s[e - 1] == ']'
        invariant
            e <= s@.len(),
            trim_brackets(s@) == trim_brackets(s@.take(e as int)),
        decreases e,
    {
        assert(s@.take(e as int).drop_last() =~= s@.take(e - 1));
        e = e - 1;
    }
    let r = slice_copy(s, 0, e);
    assert(r@ =~= s@.take(e as int));
    r
}

/// `(pid, port)` of each listening socket in `lsof -iTCP -sTCP:LISTEN -F pn`
/// output, in order.
pub fn lsof_listen_ports(text: &str) -> (pairs: Vec<(u32, u16)>)
    ensures
        pairs@ == lsof_scan(lines(text@)).1,
{
    let v = chars_of(text);
    let ls = split_lines(&v);
    let ghost t = texts(ls@);
    let mut pairs: Vec<(u32, u16)> = Vec::new();
    let mut current: Option<u32> = None;
    let mut i: usize = 0;
    assert(t.take(0) =~= Seq::<Seq<char>>::empty());
    while i < ls.len()
        invariant
            i <= ls@.len(),
            t == texts(ls@),
            t == lines(text@),
            lsof_scan(t.take(i as int)) == (current, pairs@),
        decreases ls.len() - i,
    {
        let ghost pre = t.take(i as int);
        let ghost next = t.take(i + 1);
        assert(next.drop_last() =~= pre);
        let l = &ls[i];
        assert(next.last() == l@);
        if l.len() > 0 && l[0] == 'p' {
            let rest = slice_copy(l, 1, l.len());
            assert(rest@ =~= l@.skip(1));
            assert(has_prefix(l@, "p"@)) by {
                reveal_strlit("p");
                assert(l@.take(1) =~= "p"@);
            }
            current = match parse_uint_chars(&rest, 10, 0xffff_ffff) {
                Some(p) => Some(p as u32),
                None => None,
            };
        } else if l.len() > 0 && l[0] == 'n' {
            proof {
                reveal_strlit("p");
                reveal_strlit("n");
                assert(l@.take(1)[0] == l@[0]);
                assert(!has_prefix(l@, "p"@));
                assert(l@.take(1) =~= "n"@);
            }
            let name = slice_copy(l, 1, l.len());
            assert(name@ =~= l@.skip(1));
            let last = after_last_char(&name, ':');
            let digits = trim_brackets_chars(&last);
            match (parse_uint_chars(&digits, 10, 0xffff), current) {
                (Some(port), Some(pid)) => {
                    pairs.push((pid, port as u16));
                },
                _ => {},
            }
        } else {
            proof {
                reveal_strlit("p");
                reveal_strlit("n");
                if l@.len() > 0 {
                    assert(l@.take(1)[0] == l@[0]);
                }
                assert(!has_prefix(l@, "p"@));
                assert(!has_prefix(l@, "n"@));
            }
        }
        i = i + 1;
    }
    assert(t.take(i as int) =~= t);
    pairs
}

/// The ports of process `i` once the `(pid, port)` pairs are taken in:
/// each pair adds its port, if not yet listed, to the first process with
/// its pid.
pub open spec fn ports_with_pairs(
    ports: Seq<u16>,
    pairs: Seq<(u32, u16)>,
    procs: Seq<ProcessInfo>,
    i: int,
) -> Seq<u16>
    decreases pairs.len(),
{
    if pairs.len() == 0 {
        ports
    } else {
        let rest = ports_with_pairs(ports, pairs.drop_last(), procs, i);
        let (pid, port) = pairs.last();
        if first_with_pid(procs, pid) == i && !rest.contains(port) {
            rest.push(port)
        } else {
            rest
        }
    }
}

fn ports_contain(ports: &Vec<u16>, port: u16) -> (b: bool)
    ensures
        b == ports@.contains(port),
{
    let mut k: usize = 0;
    while k < ports.len()
        invariant
            k <= ports@.len(),
            forall|m: int| 0 <= m < k ==> ports@[m] != port,
        decreases ports.len() - k,
    {
        if ports[k] == port {
            assert(ports@[k as int] == port);
            return true;
        }
        k = k + 1;
    }
    false
}

/// Adds to each process the listening ports that `lsof` lists for it.
pub fn assign_ports(procs: &mut Vec<ProcessInfo>, pairs: &Vec<(u32, u16)>)
    ensures
        final(procs)@.len() == old(procs)@.len(),
        forall|i: int|
            0 <= i < old(procs)@.len() ==> {
                let p = #[trigger] old(procs)@[i];
                let q = final(procs)@[i];
                &&& q.ports@ == ports_with_pairs(p.ports@, pairs@, old(procs)@, i)
                &&& q.pid == p.pid
                &&& q.name == p.name
                &&& q.runtime == p.runtime
                &&& q.script == p.script
                &&& q.cwd == p.cwd
                &&& q.service_name == p.service_name
                &&& q.socket_inodes == p.socket_inodes
            },
{
    let ghost procs0 = procs@;
    let mut c: usize = 0;
    while c < pairs.len()
        invariant
            c <= pairs@.len(),
            procs0 == old(procs)@,
            procs@.len() == procs0.len(),
            forall|i: int|
                0 <= i < procs0.len() ==> {
                    let p = #[trigger] procs0[i];
                    let q = procs@[i];
                    &&& q.ports@ == ports_with_pairs(p.ports@, pairs@.take(c as int), procs0, i)
                    &&& q.pid == p.pid
                    &&& q.name == p.name
                    &&& q.runtime == p.runtime
                    &&& q.script == p.script
                    &&& q.cwd == p.cwd
                    &&& q.service_name == p.service_name
                    &&& q.socket_inodes == p.socket_inodes
                },
        decreases pairs.len() - c,
    {
        let ghost pre = pairs@.take(c as int);
        let ghost next = pairs@.take(c + 1);
        assert(next.drop_last() =~= pre);
        let (pid, port) = pairs[c];
        let ghost before = procs@;
        let mut j: usize = 0;
        while j < procs.len() && procs[j].pid != pid
            invariant
                j <= procs@.len(),
                forall|k: int| 0 <= k < j ==> #[trigger] procs@[k].pid != pid,
            decreases procs.len() - j,
        {
            j = j + 1;
        }
        proof {
            lemma_first_with_pid(procs@, pid, j as int);
            lemma_same_pids(procs0, procs@, pid);
        }
        if j < procs.len() {
            if !ports_contain(&procs[j].ports, port) {
                procs[j].ports.push(port);
            }
        }
        proof {
            assert forall|i: int| 0 <= i < procs0.len() implies {
                let p = #[trigger] procs0[i];
                let q = procs@[i];
                &&& q.ports@ == ports_with_pairs(p.ports@, next, procs0, i)
                &&& q.pid == p.pid
                &&& q.name == p.name
                &&& q.runtime == p.runtime
                &&& q.script == p.script
                &&& q.cwd == p.cwd
                &&& q.service_name == p.service_name
                &&& q.socket_inodes == p.socket_inodes
            } by {
                assert(before[i].ports@ == ports_with_pairs(procs0[i].ports@, pre, procs0, i));
            }
        }
        c = c + 1;
    }
    assert(pairs@.take(c as int) =~= pairs@);
}

/// The text after `n` of the first line of `ls` that starts with `n`.
pub open spec fn first_n_line(ls: Seq<Seq<char>>) -> Option<Seq<char>>
    decreases ls.len(),
{
    if ls.len() == 0 {
        None
    } else if has_prefix(ls[0], "n"@) {
        Some(ls[0].skip(1))
    } else {
        first_n_line(ls.skip(1))
    }
}

/// The working directory in `lsof -a -p PID -d cwd -Fn` output.
pub fn lsof_cwd(text: &str) -> (res: Option<String>)
    ensures
        res.deep_view() == first_n_line(lines(text@)),
{
    let v = chars_of(text);
    let ls = split_lines(&v);
    let ghost t = texts(ls@);
    let mut i: usize = 0;
    assert(t.skip(0) =~= t);
    while i < ls.len()
        invariant
            i <= ls@.len(),
            t == texts(ls@),
            t == lines(text@),
            first_n_line(t) == first_n_line(t.skip(i as int)),
        decreases ls.len() - i,
    {
        let ghost rest = t.skip(i as int);
        assert(rest[0] == ls@[i as int]@);
        assert(rest.skip(1) =~= t.skip(i + 1));
        let l = &ls[i];
        proof {
            reveal_strlit("n");
            if l@.len() > 0 {
                assert(l@.take(1)[0] == l@[0]);
            }
        }
        if l.len() > 0 && l[0] == 'n' {
            assert(l@.take(1) =~= "n"@);
            let p = slice_copy(l, 1, l.len());
            assert(p@ =~= l@.skip(1));
            return Some(string_of(&p));
        }
        i = i + 1;
    }
    None
}

/// An address column of `netstat`: the unspecified address (`*` or
/// `0.0.0.0`) or the text of an address. Reading the text as an IP address
/// is `std::net`'s work, which the library does not do: `netstat_conn`
/// takes what the caller read it as.
#[derive(Debug, Clone, PartialEq, Eq)]
pub enum AddrText {
    Unspecified,
    Text(String),
}

/// The parts of an `address.port` column of `netstat`, split at the last `.`.
pub open spec fn macos_addr_parts(s: Seq<char>) -> Option<(Option<Seq<char>>, nat)> {
    let k = crate::text::last_index(s, '.');
    if k < 0 {
        None
    } else {
        match parse_uint(s.skip(k + 1), 10, 0xffff) {
            None => None,
            Some(port) => {
                let a = s.take(k);
                if a == "*"@ || a == "0.0.0.0"@ {
                    Some((None, port))
                } else {
                    Some((Some(a), port))
                }
            },
        }
    }
}

pub open spec fn addr_text_view(a: AddrText) -> Option<Seq<char>> {
    match a {
        AddrText::Unspecified => None,
        AddrText::Text(t) => Some(t@),
    }
}

/// Split an `address.port` column of `netstat` (such as `127.0.0.1.3000`
/// or `*.3000`) into its address and port.
pub fn macos_addr(s: &Vec<char>) -> (res: Option<(AddrText, u16)>)
    ensures
        match macos_addr_parts(s@) {
            Some((a, p)) => res matches Some(r) && addr_text_view(r.0) == a && r.1 == p,
            None => res is None,
        },
{
    proof {
        crate::text::lemma_last_index_bound(s@, '.');
    }
    let n = s.len();
    let k = match crate::text::rfind_char(s, '.') {
        Some(k) => k,
        None => return None,
    };
    let port_text = slice_copy(s, k + 1, n);
    assert(port_text@ =~= s@.skip(k + 1));
    let port = match parse_uint_chars(&port_text, 10, 0xffff) {
        Some(p) => p as u16,
        None => return None,
    };
    let a = slice_copy(s, 0, k);
    assert(a@ =~= s@.take(k as int));
    if chars_eq_str(&a, "*") || chars_eq_str(&a, "0.0.0.0") {
        Some((AddrText::Unspecified, port))
    } else {
        Some((AddrText::Text(string_of(&a)), port))
    }
}

/// The remote column of `netstat`: `*.*` stands for the unspecified
/// address and port 0; other text is split as `macos_addr` splits it.
pub fn macos_addr_or_wildcard(s: &Vec<char>) -> (res: Option<(AddrText, u16)>)
    ensures
        s@ == "*.*"@ ==> res == Some((AddrText::Unspecified, 0u16)),
        s@ != "*.*"@ ==> match macos_addr_parts(s@) {
            Some((a, p)) => res matches Some(r) && addr_text_view(r.0) == a && r.1 == p,
            None => res is None,
        },
{
    if chars_eq_str(s, "*.*") {
        Some((AddrText::Unspecified, 0u16))
    } else {
        macos_addr(s)
    }
}

/// One socket as a `netstat -an -p tcp` line lists it.
#[derive(Debug)]
pub struct NetstatRow {
    pub local: (AddrText, u16),
    /// The remote end; absent when its column does not parse
    pub remote: Option<(AddrText, u16)>,
    pub state: ConnState,
}

/// The address that a column of `netstat` stands for: the unspecified
/// IPv4 address, or what its text reads as (`read`, none when the text is
/// not an IP address).
pub open spec fn addr_value(a: AddrText, read: Option<IpAddress>) -> Option<IpAddress> {
    match a {
        AddrText::Unspecified => Some(IpAddress::V4(0)),
        AddrText::Text(_) => read,
    }
}

/// The socket a `netstat` row gives, with its address texts read as
/// `local_ip` and `remote_ip`: none when the local address is not an IP
/// address; a remote end that is absent or not an IP address is the
/// unspecified address with port 0; `netstat` gives no inode.
pub open spec fn netstat_socket(
    row: NetstatRow,
    local_ip: Option<IpAddress>,
    remote_ip: Option<IpAddress>,
) -> Option<SocketConn> {
    match addr_value(row.local.0, local_ip) {
        None => None,
        Some(l) => {
            let (ra, rp) = match row.remote {
                Some(r) => match addr_value(r.0, remote_ip) {
                    Some(x) => (x, r.1),
                    None => (IpAddress::V4(0), 0u16),
                },
                None => (IpAddress::V4(0), 0u16),
            };
            Some(
                SocketConn {
                    local_addr: l,
                    local_port: row.local.1,
                    remote_addr: ra,
                    remote_port: rp,
                    state: row.state,
                    inode: 0,
                },
            )
        },
    }
}

fn addr_value_of(a: &AddrText, read: Option<IpAddress>) -> (r: Option<IpAddress>)
    ensures
        r == addr_value(*a, read),
{
    match a {
        AddrText::Unspecified => Some(IpAddress::V4(0)),
        AddrText::Text(_) => read,
    }
}

/// The socket of a `netstat` row, given what its local and remote address
/// texts read as.
pub fn netstat_conn(row: &NetstatRow, local_ip: Option<IpAddress>, remote_ip: Option<IpAddress>) -> (res:
    Option<SocketConn>)
    ensures
        res == netstat_socket(*row, local_ip, remote_ip),
{
    let local_addr = match addr_value_of(&row.local.0, local_ip) {
        Some(l) => l,
        None => return None,
    };
    let (remote_addr, remote_port) = match &row.remote {
        Some(r) => match addr_value_of(&r.0, remote_ip) {
            Some(x) => (x, r.1),
            None => (IpAddress::V4(0), 0u16),
        },
        None => (IpAddress::V4(0), 0u16),
    };
    Some(
        SocketConn {
            local_addr,
            local_port: row.local.1,
            remote_addr,
            remote_port,
            state: row.state,
            inode: 0,
        },
    )
}

/// The state named in the last column of a `netstat` line.
pub open spec fn state_named(s: Seq<char>) -> ConnState {
    if s == "LISTEN"@ {
        ConnState::Listen
    } else if s == "ESTABLISHED"@ {
        ConnState::Established
    } else if s == "TIME_WAIT"@ {
        ConnState::TimeWait
    } else if s == "CLOSE_WAIT"@ {
        ConnState::CloseWait
    } else {
        ConnState::Other(0)
    }
}

/// A `netstat` line with at least six columns, the first naming tcp, and a
/// local address that splits.
pub open spec fn netstat_admitted(line: Seq<char>) -> bool {
    let cols = words(line);
    &&& cols.len() >= 6
    &&& has_prefix(cols[0], "tcp"@)
    &&& macos_addr_parts(cols[3]) is Some
}

/// `r` is the socket that `netstat` line `line` gives.
pub open spec fn netstat_row_matches(r: NetstatRow, line: Seq<char>) -> bool {
    let cols = words(line);
    &&& macos_addr_parts(cols[3]) == Some((addr_text_view(r.local.0), r.local.1 as nat))
    &&& match r.remote {
        Some(rem) => if cols[4] == "*.*"@ {
            addr_text_view(rem.0) is None && rem.1 == 0
        } else {
            macos_addr_parts(cols[4]) == Some((addr_text_view(rem.0), rem.1 as nat))
        },
        None => cols[4] != "*.*"@ && macos_addr_parts(cols[4]) is None,
    }
    &&& r.state == state_named(cols.last())
}

/// Parse one line of `netstat -an -p tcp` output.
pub fn parse_netstat_line(line: &str) -> (res: Option<NetstatRow>)
    ensures
        res is Some <==> netstat_admitted(line@),
        res matches Some(r) ==> netstat_row_matches(r, line@),
{
    let v = chars_of(line);
    netstat_line_chars(&v)
}

fn netstat_line_chars(v: &Vec<char>) -> (res: Option<NetstatRow>)
    ensures
        res is Some <==> netstat_admitted(v@),
        res matches Some(r) ==> netstat_row_matches(r, v@),
{
    let cols = split_words(v);
    if cols.len() < 6 {
        return None;
    }
    assert(cols@[0]@ == words(v@)[0]);
    assert(cols@[3]@ == words(v@)[3]);
    assert(cols@[4]@ == words(v@)[4]);
    if !crate::text::starts_with_str(&cols[0], "tcp") {
        return None;
    }
    let local = match macos_addr(&cols[3]) {
        Some(l) => l,
        None => return None,
    };
    let remote = macos_addr_or_wildcard(&cols[4]);
    let last = &cols[cols.len() - 1];
    assert(last@ == words(v@).last());
    let state = if chars_eq_str(last, "LISTEN") {
        ConnState::Listen
    } else if chars_eq_str(last, "ESTABLISHED") {
        ConnState::Established
    } else if chars_eq_str(last, "TIME_WAIT") {
        ConnState::TimeWait
    } else if chars_eq_str(last, "CLOSE_WAIT") {
        ConnState::CloseWait
    } else {
        ConnState::Other(0)
    };
    Some(NetstatRow { local, remote, state })
}

/// The lines of a text that `keep` admits, in order.
pub open spec fn kept_lines(ls: Seq<Seq<char>>, keep: spec_fn(Seq<char>) -> bool) -> Seq<Seq<char>>
    decreases ls.len(),
{
    if ls.len() == 0 {
        seq![]
    } else {
        let rest = kept_lines(ls.drop_last(), keep);
        if keep(ls.last()) {
            rest.push(ls.last())
        } else {
            rest
        }
    }
}

/// The lines of `ps -eo pid,comm,args` output after its header.
pub open spec fn ps_body(text: Seq<char>) -> Seq<Seq<char>> {
    let ls = lines(text);
    if ls.len() == 0 {
        ls
    } else {
        ls.skip(1)
    }
}

/// The processes of `ps -eo pid,comm,args` output: one for each line after
/// the header that `ps_row` admits, in order.
pub fn ps_table(text: &str, node_only: bool) -> (rows: Vec<PsRow>)
    ensures
        ({
            let ls = kept_lines(ps_body(text@), |l: Seq<char>| ps_admitted(l, node_only));
            &&& rows@.len() == ls.len()
            &&& forall|k: int| 0 <= k < ls.len() ==> ps_row_matches(#[trigger] rows@[k], ls[k])
        }),
{
    let v = chars_of(text);
    let all = split_lines(&v);
    let ghost body = ps_body(text@);
    let ghost keep = |l: Seq<char>| ps_admitted(l, node_only);
    let mut rows: Vec<PsRow> = Vec::new();
    if all.len() == 0 {
        return rows;
    }
    let mut i: usize = 1;
    assert(body.take(0) =~= Seq::<Seq<char>>::empty());
    while i < all.len()
        invariant
            1 <= i <= all@.len(),
            texts(all@) == lines(text@),
            body == texts(all@).skip(1),
            keep == (|l: Seq<char>| ps_admitted(l, node_only)),
            rows@.len() == kept_lines(body.take(i - 1), keep).len(),
            forall|k: int|
                0 <= k < rows@.len() ==> ps_row_matches(
                    #[trigger] rows@[k],
                    kept_lines(body.take(i - 1), keep)[k],
                ),
        decreases all.len() - i,
    {
        let ghost pre = body.take(i - 1);
        let ghost next = body.take(i as int);
        assert(next.drop_last() =~= pre);
        assert(next.last() == all@[i as int]@);
        let r = ps_row_chars(&all[i], node_only);
        match r {
            Some(row) => {
                let ghost before = rows@;
                rows.push(row);
                proof {
                    assert forall|k: int| 0 <= k < rows@.len() implies ps_row_matches(
                        #[trigger] rows@[k],
                        kept_lines(next, keep)[k],
                    ) by {
                        if k < before.len() {
                            assert(rows@[k] == before[k]);
                        }
                    }
                }
            },
            None => {},
        }
        i = i + 1;
    }
    assert(body.take(i - 1) =~= body);
    rows
}

/// The sockets of `netstat -an -p tcp` output: one for each line that
/// `parse_netstat_line` admits, in order.
pub fn netstat_rows(text: &str) -> (rows: Vec<NetstatRow>)
    ensures
        ({
            let ls = kept_lines(lines(text@), |l: Seq<char>| netstat_admitted(l));
            &&& rows@.len() == ls.len()
            &&& forall|k: int|
                0 <= k < ls.len() ==> netstat_row_matches(#[trigger] rows@[k], ls[k])
        }),
{
    let v = chars_of(text);
    let all = split_lines(&v);
    let ghost t = texts(all@);
    let ghost keep = |l: Seq<char>| netstat_admitted(l);
    let mut rows: Vec<NetstatRow> = Vec::new();
    let mut i: usize = 0;
    assert(t.take(0) =~= Seq::<Seq<char>>::empty());
    while i < all.len()
        invariant
            i <= all@.len(),
            t == texts(all@),
            t == lines(text@),
            keep == (|l: Seq<char>| netstat_admitted(l)),
            rows@.len() == kept_lines(t.take(i as int), keep).len(),
            forall|k: int|
                0 <= k < rows@.len() ==> netstat_row_matches(
                    #[trigger] rows@[k],
                    kept_lines(t.take(i as int), keep)[k],
                ),
        decreases all.len() - i,
    {
        let ghost pre = t.take(i as int);
        let ghost next = t.take(i + 1);
        assert(next.drop_last() =~= pre);
        assert(next.last() == all@[i as int]@);
        let r = netstat_line_chars(&all[i]);
        match r {
            Some(row) => {
                let ghost before = rows@;
                rows.push(row);
                proof {
                    assert forall|k: int| 0 <= k < rows@.len() implies netstat_row_matches(
                        #[trigger] rows@[k],
                        kept_lines(next, keep)[k],
                    ) by {
                        if k < before.len() {
                            assert(rows@[k] == before[k]);
                        }
                    }
                }
            },
            None => {},
        }
        i = i + 1;
    }
    assert(t.take(i as int) =~= t);
    rows
}

} // verus!
