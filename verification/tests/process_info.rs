use arch_live::collector::process::{
    classify_runtime, cmdline_args, derive_service_name, extract_script, output_text,
    pid_of_entry_name, process_entry, socket_inode, Runtime,
};

fn args(v: &[&str]) -> Vec<String> {
    v.iter().map(|s| s.to_string()).collect()
}

#[test]
fn runtime_of_executable_name() {
    assert_eq!(classify_runtime("node"), Runtime::Node);
    assert_eq!(classify_runtime("/usr/bin/node"), Runtime::Node);
    assert_eq!(classify_runtime("nodejs"), Runtime::Node);
    assert_eq!(classify_runtime("bun"), Runtime::Bun);
    assert_eq!(classify_runtime("/home/u/.bun/bin/bun"), Runtime::Bun);
    assert_eq!(classify_runtime("postgres"), Runtime::Other("postgres".to_string()));
    assert_eq!(classify_runtime("/usr/sbin/nginx"), Runtime::Other("nginx".to_string()));
}

#[test]
fn runtime_labels() {
    assert_eq!(Runtime::Node.label(), "node");
    assert_eq!(Runtime::Bun.label(), "bun");
    assert_eq!(Runtime::Other("redis".to_string()).label(), "redis");
    assert!(Runtime::Node.is_node_or_bun());
    assert!(!Runtime::Other("x".to_string()).is_node_or_bun());
}

#[test]
fn script_is_first_script_like_argument() {
    assert_eq!(
        extract_script(&args(&["node", "server.js"]), &Runtime::Node),
        Some("server.js".to_string())
    );
    assert_eq!(
        extract_script(&args(&["node", "--inspect", "app.mjs"]), &Runtime::Node),
        Some("app.mjs".to_string())
    );
    assert_eq!(
        extract_script(&args(&["bun", "run", "index.ts"]), &Runtime::Bun),
        Some("index.ts".to_string())
    );
    assert_eq!(
        extract_script(&args(&["bun", "install", "--watch", "dev", "api.tsx"]), &Runtime::Bun),
        Some("api.tsx".to_string())
    );
    // for node, "run" is a bare module path
    assert_eq!(
        extract_script(&args(&["node", "run", "index.ts"]), &Runtime::Node),
        Some("run".to_string())
    );
}

#[test]
fn script_skips_flags_absolute_paths_and_assignments() {
    assert_eq!(
        extract_script(&args(&["node", "/usr/lib/node_modules/x/cli", "a=b", "main.cjs"]), &Runtime::Node),
        Some("main.cjs".to_string())
    );
    assert_eq!(
        extract_script(&args(&["node", "/abs/server.js"]), &Runtime::Node),
        Some("/abs/server.js".to_string())
    );
    assert_eq!(extract_script(&args(&["node"]), &Runtime::Node), None);
    assert_eq!(extract_script(&args(&[]), &Runtime::Node), None);
    assert_eq!(extract_script(&args(&["node", "-e", "--x"]), &Runtime::Node), None);
}

#[test]
fn service_name_prefers_script_stem() {
    assert_eq!(
        derive_service_name(&Some("src/server.js".to_string()), &Some("/home/u/api".to_string()), "node"),
        "server"
    );
    assert_eq!(derive_service_name(&Some("index".to_string()), &None, "node"), "index");
    assert_eq!(derive_service_name(&Some("archive.tar.gz".to_string()), &None, "node"), "archive.tar");
    assert_eq!(derive_service_name(&Some(".env".to_string()), &None, "node"), ".env");
    // a script with no file name is shown as it is
    assert_eq!(derive_service_name(&Some("..".to_string()), &None, "node"), "..");
}

#[test]
fn service_name_falls_back_to_folder_then_name() {
    assert_eq!(derive_service_name(&None, &Some("/home/u/api".to_string()), "node"), "api");
    assert_eq!(derive_service_name(&None, &Some("/home/u/api/".to_string()), "node"), "api");
    assert_eq!(derive_service_name(&None, &Some("/".to_string()), "node"), "node");
    assert_eq!(derive_service_name(&None, &None, "bun"), "bun");
}

#[test]
fn cmdline_splits_at_nul_and_drops_empty_pieces() {
    let raw = b"node\0server.js\0\0--port\x003000\0".to_vec();
    assert_eq!(cmdline_args(&raw), args(&["node", "server.js", "--port", "3000"]));
    assert!(cmdline_args(&Vec::new()).is_empty());
    let bad = vec![b'a', 0xff, 0, b'b'];
    assert_eq!(cmdline_args(&bad), vec!["a\u{fffd}".to_string(), "b".to_string()]);
}

#[test]
fn proc_entry_builds_process() {
    let raw = b"node\0server.js\0".to_vec();
    let p = process_entry(42, "node\n", false, Some(&raw), Some("/srv/api".to_string()), vec![7, 8]).unwrap();
    assert_eq!(p.pid, 42);
    assert_eq!(p.name, "node");
    assert_eq!(p.runtime, Runtime::Node);
    assert_eq!(p.script, Some("server.js".to_string()));
    assert_eq!(p.cwd, Some("/srv/api".to_string()));
    assert_eq!(p.service_name, "server");
    assert!(p.ports.is_empty());
    assert_eq!(p.socket_inodes, vec![7, 8]);
}

#[test]
fn proc_entry_filters() {
    let raw = b"postgres\0-D\0/data\0".to_vec();
    assert!(process_entry(5, "postgres\n", true, Some(&raw), None, vec![]).is_none());
    let p = process_entry(5, "postgres\n", false, Some(&raw), None, vec![]).unwrap();
    assert_eq!(p.script, None);
    assert_eq!(p.service_name, "postgres");
    // no command line, no process
    assert!(process_entry(6, "node", false, None, None, vec![]).is_none());
}

#[test]
fn socket_link_targets() {
    assert_eq!(socket_inode("socket:[12345]"), Some(12345));
    assert_eq!(socket_inode("socket:[]"), None);
    assert_eq!(socket_inode("pipe:[12345]"), None);
    assert_eq!(socket_inode("socket:[12a]"), None);
    assert_eq!(socket_inode("/dev/null"), None);
}

#[test]
fn proc_entry_names() {
    assert_eq!(pid_of_entry_name("1234"), Some(1234));
    assert_eq!(pid_of_entry_name("self"), None);
    assert_eq!(pid_of_entry_name("4294967296"), None);
}

#[test]
fn command_output_text() {
    assert_eq!(output_text(&b"PID COMM\n1 init\n".to_vec()), "PID COMM\n1 init\n");
    assert_eq!(output_text(&vec![b'o', b'k', 0xfe]), "ok\u{fffd}");
}
