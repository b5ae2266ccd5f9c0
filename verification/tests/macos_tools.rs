use arch_live::collector::macos::{
    assign_ports, lsof_cwd, lsof_listen_ports, macos_addr, netstat_conn, parse_netstat_line,
    ps_process, ps_row, AddrText,
};
use arch_live::collector::process::{ProcessInfo, Runtime};
use arch_live::collector::socket::{ConnState, IpAddress, SocketConn};

fn chars(s: &str) -> Vec<char> {
    s.chars().collect()
}

#[test]
fn ps_line_with_args() {
    let r = ps_row("  4242 /usr/local/bin/node node server.js --port 3000", false).unwrap();
    assert_eq!(r.pid, 4242);
    assert_eq!(r.name, "node");
    assert_eq!(r.runtime, Runtime::Node);
    assert_eq!(r.args, vec!["node", "server.js", "--port", "3000"]);
}

#[test]
fn ps_line_filters_and_refusals() {
    assert!(ps_row("  77 /usr/sbin/sshd sshd -D", true).is_none());
    let r = ps_row("  77 /usr/sbin/sshd sshd -D", false).unwrap();
    assert_eq!(r.runtime, Runtime::Other("sshd".to_string()));
    assert!(ps_row("  PID COMM ARGS", false).is_none());
    assert!(ps_row("12", false).is_none());
    let bare = ps_row("12 bun", false).unwrap();
    assert_eq!(bare.runtime, Runtime::Bun);
    assert!(bare.args.is_empty());
}

#[test]
fn ps_row_to_process() {
    let r = ps_row("9 bun bun run api.ts", false).unwrap();
    let p = ps_process(r, Some("/Users/me/shop".to_string()));
    assert_eq!(p.pid, 9);
    assert_eq!(p.script, Some("api.ts".to_string()));
    assert_eq!(p.service_name, "api");
    assert_eq!(p.cwd, Some("/Users/me/shop".to_string()));
    let r2 = ps_row("10 node node", false).unwrap();
    let p2 = ps_process(r2, Some("/Users/me/shop".to_string()));
    assert_eq!(p2.script, None);
    assert_eq!(p2.service_name, "shop");
}

#[test]
fn lsof_pairs() {
    let text = "p100\nn*:3000\nn127.0.0.1:3001\np200\nn[::1]:8080\nnbogus\nfcwd\npxx\nn*:9999\n";
    assert_eq!(lsof_listen_ports(text), vec![(100, 3000), (100, 3001), (200, 8080)]);
    assert!(lsof_listen_ports("n*:3000\n").is_empty());
}

fn proc_with_pid(pid: u32) -> ProcessInfo {
    ProcessInfo {
        pid,
        name: "node".to_string(),
        runtime: Runtime::Node,
        script: None,
        cwd: None,
        service_name: "node".to_string(),
        ports: vec![],
        socket_inodes: vec![],
    }
}

#[test]
fn lsof_ports_go_to_their_process() {
    let mut procs = vec![proc_with_pid(100), proc_with_pid(200)];
    assign_ports(&mut procs, &vec![(100, 3000), (100, 3000), (300, 1), (200, 8080), (100, 3001)]);
    assert_eq!(procs[0].ports, vec![3000, 3001]);
    assert_eq!(procs[1].ports, vec![8080]);
}

#[test]
fn lsof_cwd_first_name_line() {
    assert_eq!(lsof_cwd("p12\nfcwd\nn/Users/me/app\n"), Some("/Users/me/app".to_string()));
    assert_eq!(lsof_cwd("p12\nfcwd\n"), None);
}

#[test]
fn netstat_addresses() {
    assert_eq!(macos_addr(&chars("127.0.0.1.3000")), Some((AddrText::Text("127.0.0.1".to_string()), 3000)));
    assert_eq!(macos_addr(&chars("*.3000")), Some((AddrText::Unspecified, 3000)));
    assert_eq!(macos_addr(&chars("0.0.0.0.80")), Some((AddrText::Unspecified, 80)));
    assert_eq!(macos_addr(&chars("*.*")), None);
    assert_eq!(macos_addr(&chars("3000")), None);
}

#[test]
fn netstat_lines() {
    let l = parse_netstat_line("tcp4       0      0  127.0.0.1.3000         *.*                    LISTEN").unwrap();
    assert_eq!(l.local, (AddrText::Text("127.0.0.1".to_string()), 3000));
    assert_eq!(l.remote, Some((AddrText::Unspecified, 0)));
    assert_eq!(l.state, ConnState::Listen);
    let e = parse_netstat_line("tcp4  0  0  127.0.0.1.3000  127.0.0.1.54321  ESTABLISHED").unwrap();
    assert_eq!(e.remote, Some((AddrText::Text("127.0.0.1".to_string()), 54321)));
    assert_eq!(e.state, ConnState::Established);
    let o = parse_netstat_line("tcp6  0  0  *.443  *.*  SYN_SENT").unwrap();
    assert_eq!(o.state, ConnState::Other(0));
    assert!(parse_netstat_line("udp4  0  0  *.53  *.*  x").is_none());
    assert!(parse_netstat_line("tcp4  0  0  *.53").is_none());
    assert!(parse_netstat_line("Proto Recv-Q Send-Q  Local Address  Foreign Address (state)").is_none());
}

#[test]
fn netstat_line_socket() {
    let row = parse_netstat_line("tcp4  0  0  127.0.0.1.3000  *.*  LISTEN").unwrap();
    assert_eq!(
        netstat_conn(&row, Some(IpAddress::V4(0x7F00_0001)), None),
        Some(SocketConn {
            local_addr: IpAddress::V4(0x7F00_0001),
            local_port: 3000,
            remote_addr: IpAddress::V4(0),
            remote_port: 0,
            state: ConnState::Listen,
            inode: 0,
        })
    );
    // a local address that is not an IP address gives no socket
    let bad = parse_netstat_line("tcp4  0  0  [fe80::1%lo0].3000  *.*  LISTEN").unwrap();
    assert_eq!(netstat_conn(&bad, None, None), None);
    // an unreadable remote end is the unspecified address, port 0
    let e = parse_netstat_line("tcp4  0  0  *.3000  foo.4000  ESTABLISHED").unwrap();
    let c = netstat_conn(&e, None, None).unwrap();
    assert_eq!((c.local_addr, c.local_port, c.remote_addr, c.remote_port), (IpAddress::V4(0), 3000, IpAddress::V4(0), 0));
    let r = netstat_conn(&e, None, Some(IpAddress::V4(0x0A00_0001))).unwrap();
    assert_eq!((r.remote_addr, r.remote_port), (IpAddress::V4(0x0A00_0001), 4000));
}
