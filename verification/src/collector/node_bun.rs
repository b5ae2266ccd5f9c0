//! Node.js / Bun specific heuristics: which framework a process serves.

use vstd::prelude::*;
use crate::collector::process::{ProcessInfo, Runtime, RuntimeModel};
use crate::text::{append_str, chars_of, contains_str, occurs_in};

verus! {

/// Common framework patterns detected by heuristic analysis of the process
#[derive(Debug, Clone, Copy, PartialEq, Eq, Structural)]
pub enum FrameworkHint {
    Express,
    Fastify,
    Hono,
    BunServe,
    NextJs,
    Unknown,
}

pub open spec fn hint_label(h: FrameworkHint) -> Seq<char> {
    match h {
        FrameworkHint::Express => "Express"@,
        FrameworkHint::Fastify => "Fastify"@,
        FrameworkHint::Hono => "Hono"@,
        FrameworkHint::BunServe => "Bun.serve"@,
        FrameworkHint::NextJs => "Next.js"@,
        FrameworkHint::Unknown => ""@,
    }
}

impl FrameworkHint {
    pub fn label(&self) -> (s: &'static str)
        ensures
            s@ == hint_label(*self),
    {
        match self {
            FrameworkHint::Express => "Express",
            FrameworkHint::Fastify => "Fastify",
            FrameworkHint::Hono => "Hono",
            FrameworkHint::BunServe => "Bun.serve",
            FrameworkHint::NextJs => "Next.js",
            FrameworkHint::Unknown => "",
        }
    }
}

/// Lower-case text of `s` (`str::to_lowercase`, Unicode's lowercase mapping).
pub uninterp spec fn lowercase(s: Seq<char>) -> Seq<char>;

/// Calls `str::to_lowercase`; its result is named `lowercase` of the text.
#[verifier::external_body]
fn to_lower(s: &str) -> (res: String)
    ensures
        res@ == lowercase(s@),
{
    s.to_lowercase()
}

/// The framework guessed from the runtime, the lower-cased script and the
/// lower-cased working directory. Under Node, entry points named like
/// `server`, `app` or `index` are taken to serve HTTP with Express; under
/// Bun, one named like `index` is taken to serve with `Bun.serve` (so
/// `bun run index.ts` is shown as Bun.serve).
pub open spec fn framework_of(rt: RuntimeModel, script: Seq<char>, cwd: Seq<char>) -> FrameworkHint {
    if occurs_in(script, "next"@) || occurs_in(cwd, "nextjs"@) || occurs_in(cwd, "next-"@) {
        FrameworkHint::NextJs
    } else if rt is Bun && (occurs_in(script, "serve"@) || occurs_in(script, "server"@)) {
        FrameworkHint::BunServe
    } else if occurs_in(script, "fastify"@) {
        FrameworkHint::Fastify
    } else if occurs_in(script, "hono"@) {
        FrameworkHint::Hono
    } else if (occurs_in(script, "server"@) || occurs_in(script, "app"@) || occurs_in(
        script,
        "index"@,
    )) && rt is Node {
        FrameworkHint::Express
    } else if occurs_in(script, "index"@) && rt is Bun {
        FrameworkHint::BunServe
    } else {
        FrameworkHint::Unknown
    }
}

/// Under Node, a script that names an entry point (contains `server`, `app`
/// or `index`) is taken to serve with Express, unless an earlier rule
/// applies: Next.js (`next` in the script, `nextjs` or `next-` in the
/// directory), Fastify or Hono (named in the script).
pub proof fn law_node_entry_is_express(script: Seq<char>, cwd: Seq<char>)
    requires
        occurs_in(script, "server"@) || occurs_in(script, "app"@) || occurs_in(script, "index"@),
        !occurs_in(script, "next"@),
        !occurs_in(cwd, "nextjs"@),
        !occurs_in(cwd, "next-"@),
        !occurs_in(script, "fastify"@),
        !occurs_in(script, "hono"@),
    ensures
        framework_of(RuntimeModel::Node, script, cwd) == FrameworkHint::Express,
{
}

/// Under Node, a script that names none of the frameworks and no entry
/// point is not guessed to serve any framework.
pub proof fn law_node_other_is_unknown(script: Seq<char>, cwd: Seq<char>)
    requires
        !occurs_in(script, "server"@),
        !occurs_in(script, "app"@),
        !occurs_in(script, "index"@),
        !occurs_in(script, "next"@),
        !occurs_in(cwd, "nextjs"@),
        !occurs_in(cwd, "next-"@),
        !occurs_in(script, "fastify"@),
        !occurs_in(script, "hono"@),
    ensures
        framework_of(RuntimeModel::Node, script, cwd) == FrameworkHint::Unknown,
{
}

/// Framework heuristics over already lower-cased script and directory text.
pub fn classify_framework(runtime: &Runtime, script_lower: &str, cwd_lower: &str) -> (h:
    FrameworkHint)
    ensures
        h == framework_of(runtime@, script_lower@, cwd_lower@),
{
    let script = chars_of(script_lower);
    let cwd = chars_of(cwd_lower);
    if contains_str(&script, "next") || contains_str(&cwd, "nextjs") || contains_str(
        &cwd,
        "next-",
    ) {
        return FrameworkHint::NextJs;
    }
    let is_bun = match runtime {
        Runtime::Bun => true,
        _ => false,
    };
    let is_node = match runtime {
        Runtime::Node => true,
        _ => false,
    };
    if is_bun && (contains_str(&script, "serve") || contains_str(&script, "server")) {
        return FrameworkHint::BunServe;
    }
    if contains_str(&script, "fastify") {
        return FrameworkHint::Fastify;
    }
    if contains_str(&script, "hono") {
        return FrameworkHint::Hono;
    }
    if contains_str(&script, "server") || contains_str(&script, "app") || contains_str(
        &script,
        "index",
    ) {
        if is_node {
            return FrameworkHint::Express;
        }
    }
    if is_bun && contains_str(&script, "index") {
        return FrameworkHint::BunServe;
    }
    FrameworkHint::Unknown
}

/// The lower-cased script of a process ("" lower-cased when it has none).
pub open spec fn script_lower_of(p: ProcessInfo) -> Seq<char> {
    match p.script {
        Some(s) => lowercase(s@),
        None => lowercase(""@),
    }
}

/// The lower-cased working directory of a process (empty when unknown).
pub open spec fn cwd_lower_of(p: ProcessInfo) -> Seq<char> {
    match p.cwd {
        Some(c) => lowercase(c@),
        None => Seq::empty(),
    }
}

/// The framework a process is guessed to serve.
pub open spec fn framework_of_process(p: ProcessInfo) -> FrameworkHint {
    framework_of(p.runtime@, script_lower_of(p), cwd_lower_of(p))
}

pub fn detect_framework(p: &ProcessInfo) -> (h: FrameworkHint)
    ensures
        h == framework_of_process(*p),
{
    let script = match &p.script {
        Some(s) => to_lower(s.as_str()),
        None => to_lower(""),
    };
    let cwd = match &p.cwd {
        Some(c) => to_lower(c.as_str()),
        None => String::new(),
    };
    classify_framework(&p.runtime, script.as_str(), cwd.as_str())
}

/// The service name of a Node/Bun process annotated with the framework it
/// is guessed to serve; other names stay as they are.
pub open spec fn enriched_name(p: ProcessInfo) -> Seq<char> {
    let h = framework_of_process(p);
    if (p.runtime is Node || p.runtime is Bun) && h != FrameworkHint::Unknown {
        p.service_name@ + " ("@ + hint_label(h) + ")"@
    } else {
        p.service_name@
    }
}

/// Enrich a process list with Node/Bun specific metadata: each Node or Bun
/// process whose framework is recognised has it added to its service name.
pub fn enrich(processes: &mut Vec<ProcessInfo>)
    ensures
        final(processes)@.len() == old(processes)@.len(),
        forall|i: int|
            0 <= i < old(processes)@.len() ==> {
                let p = #[trigger] old(processes)@[i];
                let q = final(processes)@[i];
                &&& q.service_name@ == enriched_name(p)
                &&& q.pid == p.pid
                &&& q.name == p.name
                &&& q.runtime == p.runtime
                &&& q.script == p.script
                &&& q.cwd == p.cwd
                &&& q.ports == p.ports
                &&& q.socket_inodes == p.socket_inodes
            },
{
    let mut i: usize = 0;
    while i < processes.len()
        invariant
            i <= processes@.len(),
            processes@.len() == old(processes)@.len(),
            forall|k: int|
                0 <= k < processes@.len() ==> {
                    let p = #[trigger] old(processes)@[k];
                    let q = processes@[k];
                    &&& (k < i ==> q.service_name@ == enriched_name(p))
                    &&& (k >= i ==> q.service_name == p.service_name)
                    &&& q.pid == p.pid
                    &&& q.name == p.name
                    &&& q.runtime == p.runtime
                    &&& q.script == p.script
                    &&& q.cwd == p.cwd
                    &&& q.ports == p.ports
                    &&& q.socket_inodes == p.socket_inodes
                },
        decreases processes.len() - i,
    {
        let is_nb = processes[i].runtime.is_node_or_bun();
        if is_nb {
            let hint = detect_framework(&processes[i]);
            if hint != FrameworkHint::Unknown {
                let mut name = processes[i].service_name.clone();
                append_str(&mut name, " (");
                append_str(&mut name, hint.label());
                append_str(&mut name, ")");
                processes[i].service_name = name;
            }
        }
        i = i + 1;
    }
}

} // verus!
