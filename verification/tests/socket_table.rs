use arch_live::collector::socket::{
    parse_hex_addr, parse_proc_net_tcp, parse_tcp_line, ConnState, IpAddress, SocketConn,
};

const HEADER: &str = "  sl  local_address rem_address   st tx_queue rx_queue tr tm->when retrnsmt   uid  timeout inode";
const LISTEN_LINE: &str = "   0: 0100007F:0BB8 00000000:0000 0A 00000000:00000000 00:00000000 00000000  1000        0 12345 1 0000000000000000 100 0 0 10 0";
const EST_LINE: &str = "   1: 0100007F:0BB8 0100007F:D431 01 00000000:00000000 00:00000000 00000000  1000        0 23456 1 0000000000000000 20 4 30 10 -1";

fn chars(s: &str) -> Vec<char> {
    s.chars().collect()
}

#[test]
fn state_codes_map_to_states() {
    assert_eq!(ConnState::from_code(0x01), ConnState::Established);
    assert_eq!(ConnState::from_code(0x0A), ConnState::Listen);
    assert_eq!(ConnState::from_code(0x06), ConnState::TimeWait);
    assert_eq!(ConnState::from_code(0x08), ConnState::CloseWait);
    assert_eq!(ConnState::from_code(0x02), ConnState::Other(2));
}

#[test]
fn hex_addr_v4() {
    assert_eq!(
        parse_hex_addr(&chars("0100007F:0BB8"), false),
        Some((IpAddress::HostV4(0x0100007F), 3000))
    );
    assert_eq!(parse_hex_addr(&chars("0100007F"), false), None);
    assert_eq!(parse_hex_addr(&chars("100007F:0BB8"), false), None);
    assert_eq!(parse_hex_addr(&chars("0100007G:0BB8"), false), None);
    assert_eq!(parse_hex_addr(&chars("0100007F:10000"), false), None);
}

#[test]
fn hex_addr_v6() {
    assert_eq!(
        parse_hex_addr(&chars("00000000000000000000000001000000:1F90"), true),
        Some((IpAddress::HostV6(0, 0, 0, 0x01000000), 8080))
    );
    // an IPv4 column is refused as IPv6
    assert_eq!(parse_hex_addr(&chars("0100007F:1F90"), true), None);
}

#[test]
fn tcp_line_listen() {
    let c = parse_tcp_line(LISTEN_LINE, false).unwrap();
    assert_eq!(
        c,
        SocketConn {
            local_addr: IpAddress::HostV4(0x0100007F),
            local_port: 3000,
            remote_addr: IpAddress::HostV4(0),
            remote_port: 0,
            state: ConnState::Listen,
            inode: 12345,
        }
    );
    assert!(c.is_listen());
    assert!(!c.is_established());
}

#[test]
fn tcp_line_established() {
    let c = parse_tcp_line(EST_LINE, false).unwrap();
    assert_eq!(c.local_port, 3000);
    assert_eq!(c.remote_port, 0xD431);
    assert_eq!(c.state, ConnState::Established);
    assert_eq!(c.inode, 23456);
    assert!(c.is_established());
}

#[test]
fn tcp_line_too_short_or_bad() {
    assert_eq!(parse_tcp_line(HEADER, false), None);
    assert_eq!(parse_tcp_line("0: 0100007F:0BB8 00000000:0000 0A", false), None);
    assert_eq!(parse_tcp_line("", false), None);
}

#[test]
fn proc_net_tcp_skips_header_and_filters() {
    let content = format!("{}\n{}\n{}\n", HEADER, LISTEN_LINE, EST_LINE);
    let mut out = Vec::new();
    parse_proc_net_tcp(&content, false, None, &mut out);
    assert_eq!(out.len(), 2);
    assert_eq!(out[0].state, ConnState::Listen);
    assert_eq!(out[1].state, ConnState::Established);

    let mut only = Vec::new();
    parse_proc_net_tcp(&content, false, Some(0xD431), &mut only);
    assert_eq!(only.len(), 1);
    assert_eq!(only[0].remote_port, 0xD431);

    let mut none = Vec::new();
    parse_proc_net_tcp(&content, false, Some(9999), &mut none);
    assert!(none.is_empty());
}

#[test]
fn proc_net_tcp_appends() {
    let content = format!("{}\n{}\n", HEADER, LISTEN_LINE);
    let mut out = Vec::new();
    parse_proc_net_tcp(&content, false, None, &mut out);
    parse_proc_net_tcp(&content, false, None, &mut out);
    assert_eq!(out.len(), 2);
    let mut empty = Vec::new();
    parse_proc_net_tcp("", false, None, &mut empty);
    parse_proc_net_tcp(LISTEN_LINE, false, None, &mut empty);
    assert!(empty.is_empty());
}
