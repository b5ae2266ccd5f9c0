use arch_live::collector::node_bun::{detect_framework, enrich, FrameworkHint};
use arch_live::collector::process::{ProcessInfo, Runtime};

fn proc_of(runtime: Runtime, script: Option<&str>, cwd: Option<&str>, name: &str) -> ProcessInfo {
    ProcessInfo {
        pid: 1,
        name: "x".to_string(),
        runtime,
        script: script.map(|s| s.to_string()),
        cwd: cwd.map(|s| s.to_string()),
        service_name: name.to_string(),
        ports: vec![3000],
        socket_inodes: vec![11],
    }
}

#[test]
fn framework_labels() {
    assert_eq!(FrameworkHint::Express.label(), "Express");
    assert_eq!(FrameworkHint::Fastify.label(), "Fastify");
    assert_eq!(FrameworkHint::Hono.label(), "Hono");
    assert_eq!(FrameworkHint::BunServe.label(), "Bun.serve");
    assert_eq!(FrameworkHint::NextJs.label(), "Next.js");
    assert_eq!(FrameworkHint::Unknown.label(), "");
}

#[test]
fn framework_heuristics() {
    assert_eq!(detect_framework(&proc_of(Runtime::Node, Some("node_modules/.bin/next"), None, "n")), FrameworkHint::NextJs);
    assert_eq!(detect_framework(&proc_of(Runtime::Node, Some("main.js"), Some("/w/NextJS-site"), "n")), FrameworkHint::NextJs);
    assert_eq!(detect_framework(&proc_of(Runtime::Bun, Some("Server.ts"), None, "n")), FrameworkHint::BunServe);
    assert_eq!(detect_framework(&proc_of(Runtime::Node, Some("fastify-app.js"), None, "n")), FrameworkHint::Fastify);
    assert_eq!(detect_framework(&proc_of(Runtime::Bun, Some("hono.ts"), None, "n")), FrameworkHint::Hono);
    assert_eq!(detect_framework(&proc_of(Runtime::Node, Some("server.js"), None, "n")), FrameworkHint::Express);
    assert_eq!(detect_framework(&proc_of(Runtime::Node, Some("INDEX.js"), None, "n")), FrameworkHint::Express);
    assert_eq!(detect_framework(&proc_of(Runtime::Bun, Some("index.ts"), None, "n")), FrameworkHint::BunServe);
    assert_eq!(detect_framework(&proc_of(Runtime::Bun, Some("worker.ts"), None, "n")), FrameworkHint::Unknown);
    assert_eq!(detect_framework(&proc_of(Runtime::Bun, Some("app.ts"), None, "n")), FrameworkHint::Unknown);
    assert_eq!(detect_framework(&proc_of(Runtime::Node, None, None, "n")), FrameworkHint::Unknown);
    assert_eq!(detect_framework(&proc_of(Runtime::Node, Some("worker.js"), None, "n")), FrameworkHint::Unknown);
}

#[test]
fn enrich_names_node_and_bun_services() {
    let mut ps = vec![
        proc_of(Runtime::Node, Some("server.js"), None, "server"),
        proc_of(Runtime::Bun, Some("serve.ts"), None, "serve"),
        proc_of(Runtime::Other("python".to_string()), Some("app.py"), None, "app"),
        proc_of(Runtime::Node, Some("worker.js"), None, "worker"),
    ];
    enrich(&mut ps);
    assert_eq!(ps[0].service_name, "server (Express)");
    assert_eq!(ps[1].service_name, "serve (Bun.serve)");
    assert_eq!(ps[2].service_name, "app");
    assert_eq!(ps[3].service_name, "worker");
    assert_eq!(ps[0].ports, vec![3000]);
    assert_eq!(ps[0].socket_inodes, vec![11]);
}

#[test]
fn bun_entry_script_is_shown_as_bun_serve() {
    let mut ps = vec![proc_of(Runtime::Bun, Some("index.ts"), None, "index")];
    enrich(&mut ps);
    assert_eq!(ps[0].service_name, "index (Bun.serve)");
}
