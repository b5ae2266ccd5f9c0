//! Process classification: which runtime a process runs, which script it
//! was started with, and the name it is shown under.

use vstd::prelude::*;
use crate::text::{
    parse_uint, parse_uint_chars, trim, trim_chars,
    after_last, after_last_char, chars_eq_str, chars_of, contains_str, ends_with_str, has_prefix,
    has_suffix, last_index, occurs_in, rfind_char, slice_copy, split_fields, split_on,
    starts_with_str, string_of, texts,
};

verus! {

/// Runtime classification of a process.
#[derive(Debug, Clone, PartialEq, Eq, Hash)]
pub enum Runtime {
    Node,
    Bun,
    Other(String),
}

/// What a runtime is, with the name of an unrecognised one as text.
pub enum RuntimeModel {
    Node,
    Bun,
    Other(Seq<char>),
}

impl View for Runtime {
    type V = RuntimeModel;

    open spec fn view(&self) -> RuntimeModel {
        match self {
            Runtime::Node => RuntimeModel::Node,
            Runtime::Bun => RuntimeModel::Bun,
            Runtime::Other(s) => RuntimeModel::Other(s@),
        }
    }
}

/// The label of a runtime: "node", "bun", or the executable's own name.
pub open spec fn runtime_label(r: RuntimeModel) -> Seq<char> {
    match r {
        RuntimeModel::Node => "node"@,
        RuntimeModel::Bun => "bun"@,
        RuntimeModel::Other(s) => s,
    }
}

impl Runtime {
    pub fn label(&self) -> (s: &str)
        ensures
            s@ == runtime_label(self@),
    {
        match self {
            Runtime::Node => "node",
            Runtime::Bun => "bun",
            Runtime::Other(s) => s.as_str(),
        }
    }

    /// A copy of this runtime.
    pub fn duplicate(&self) -> (r: Runtime)
        ensures
            r == *self,
    {
        match self {
            Runtime::Node => Runtime::Node,
            Runtime::Bun => Runtime::Bun,
            Runtime::Other(s) => Runtime::Other(s.clone()),
        }
    }

    pub fn is_node_or_bun(&self) -> (b: bool)
        ensures
            b == (self is Node || self is Bun),
    {
        match self {
            Runtime::Node | Runtime::Bun => true,
            Runtime::Other(_) => false,
        }
    }
}

/// All metadata extracted about a process.
#[derive(Debug, Clone)]
pub struct ProcessInfo {
    pub pid: u32,
    pub name: String,
    pub runtime: Runtime,
    /// The primary script/entry-point file (e.g. server.js)
    pub script: Option<String>,
    /// Working directory of the process
    pub cwd: Option<String>,
    /// Derived display name: script stem or folder name
    pub service_name: String,
    /// Ports this process is listening on
    pub ports: Vec<u16>,
    /// Inode numbers of sockets owned by this process
    pub socket_inodes: Vec<u64>,
}

/// Runtime of a process whose executable name is `comm` (a path is cut
/// to its last component): names starting with "node" or "bun".
pub open spec fn classify(comm: Seq<char>) -> RuntimeModel {
    let base = after_last(comm, '/');
    if has_prefix(base, "node"@) {
        RuntimeModel::Node
    } else if has_prefix(base, "bun"@) {
        RuntimeModel::Bun
    } else {
        RuntimeModel::Other(base)
    }
}

pub fn classify_runtime(comm: &str) -> (r: Runtime)
    ensures
        r@ == classify(comm@),
{
    let cv = chars_of(comm);
    let base = after_last_char(&cv, '/');
    if starts_with_str(&base, "node") {
        Runtime::Node
    } else if starts_with_str(&base, "bun") {
        Runtime::Bun
    } else {
        Runtime::Other(string_of(&base))
    }
}

/// The sub-commands of `bun` that come before the script.
pub open spec fn bun_subcommand(a: Seq<char>) -> bool {
    ||| a == "run"@
    ||| a == "serve"@
    ||| a == "dev"@
    ||| a == "install"@
    ||| a == "add"@
    ||| a == "remove"@
    ||| a == "test"@
}

/// A JS/TS file name, or a bare module path.
pub open spec fn script_like(a: Seq<char>) -> bool {
    ||| has_suffix(a, ".js"@)
    ||| has_suffix(a, ".mjs"@)
    ||| has_suffix(a, ".cjs"@)
    ||| has_suffix(a, ".ts"@)
    ||| has_suffix(a, ".tsx"@)
    ||| (!occurs_in(a, "="@) && !has_prefix(a, "/"@) && a.len() > 0)
}

/// Whether argument `a` is taken as the script: not a flag, not a bun
/// sub-command, and script-like.
pub open spec fn accepts_arg(a: Seq<char>, is_bun: bool) -> bool {
    !has_prefix(a, "-"@) && !(is_bun && bun_subcommand(a)) && script_like(a)
}

/// The first argument from index `i` on that is taken as the script.
pub open spec fn first_script(args: Seq<Seq<char>>, i: int, is_bun: bool) -> Option<Seq<char>>
    decreases args.len() - i,
{
    if i < 0 || i >= args.len() {
        None
    } else if accepts_arg(args[i], is_bun) {
        Some(args[i])
    } else {
        first_script(args, i + 1, is_bun)
    }
}

pub open spec fn string_texts(v: Seq<String>) -> Seq<Seq<char>> {
    v.map_values(|a: String| a@)
}

/// Whether an argument names a JavaScript or TypeScript file by its
/// extension.
pub open spec fn has_script_extension(a: Seq<char>) -> bool {
    ||| has_suffix(a, ".js"@)
    ||| has_suffix(a, ".mjs"@)
    ||| has_suffix(a, ".cjs"@)
    ||| has_suffix(a, ".ts"@)
    ||| has_suffix(a, ".tsx"@)
}

/// An argument after the executable that ends in `.js`, `.mjs`, `.cjs`,
/// `.ts` or `.tsx` is taken as the script, whatever directory it names
/// (absolute paths included), unless it is a flag or a bun sub-command; so
/// the script found is at or before the first such argument.
pub proof fn law_script_by_extension(args: Seq<Seq<char>>, is_bun: bool, i: int)
    requires
        1 <= i < args.len(),
        has_script_extension(args[i]),
        !has_prefix(args[i], "-"@),
        !(is_bun && bun_subcommand(args[i])),
    ensures
        accepts_arg(args[i], is_bun),
        first_script(args, 1, is_bun) is Some,
        exists|k: int|
            1 <= k <= i && first_script(args, 1, is_bun) == Some(args[k]) && accepts_arg(
                args[k],
                is_bun,
            ),
{
    lemma_first_script_upto(args, 1, is_bun, i);
}

proof fn lemma_first_script_upto(args: Seq<Seq<char>>, from: int, is_bun: bool, i: int)
    requires
        1 <= from <= i < args.len(),
        has_script_extension(args[i]),
        !has_prefix(args[i], "-"@),
        !(is_bun && bun_subcommand(args[i])),
    ensures
        accepts_arg(args[i], is_bun),
        exists|k: int|
            from <= k <= i && first_script(args, from, is_bun) == Some(args[k]) && accepts_arg(
                args[k],
                is_bun,
            ),
    decreases i - from,
{
    if accepts_arg(args[from], is_bun) {
        assert(first_script(args, from, is_bun) == Some(args[from]));
    } else {
        lemma_first_script_upto(args, from + 1, is_bun, i);
        let k = choose|k: int|
            from + 1 <= k <= i && first_script(args, from + 1, is_bun) == Some(args[k])
                && accepts_arg(args[k], is_bun);
        assert(first_script(args, from, is_bun) == Some(args[k]));
    }
}

pub fn is_bun_subcommand(a: &Vec<char>) -> (b: bool)
    ensures
        b == bun_subcommand(a@),
{
    chars_eq_str(a, "run") || chars_eq_str(a, "serve") || chars_eq_str(a, "dev")
        || chars_eq_str(a, "install") || chars_eq_str(a, "add") || chars_eq_str(a, "remove")
        || chars_eq_str(a, "test")
}

pub fn is_script_like(a: &Vec<char>) -> (b: bool)
    ensures
        b == script_like(a@),
{
    ends_with_str(a, ".js") || ends_with_str(a, ".mjs") || ends_with_str(a, ".cjs")
        || ends_with_str(a, ".ts") || ends_with_str(a, ".tsx") || (!contains_str(a, "=")
        && !starts_with_str(a, "/") && a.len() > 0)
}

/// The first argument after the executable that looks like a JS/TS script.
pub fn extract_script(args: &Vec<String>, runtime: &Runtime) -> (res: Option<String>)
    ensures
        res.deep_view() == first_script(string_texts(args@), 1, runtime is Bun),
{
    let is_bun = match runtime {
        Runtime::Bun => true,
        _ => false,
    };
    let ghost t = string_texts(args@);
    let mut i: usize = 1;
    while i < args.len()
        invariant
            1 <= i,
            t == string_texts(args@),
            first_script(t, 1, is_bun) == first_script(t, i as int, is_bun),
            t.len() == args@.len(),
            is_bun == (runtime is Bun),
        decreases args.len() - i,
    {
        let a = chars_of(args[i].as_str());
        assert(t[i as int] == a@);
        if !starts_with_str(&a, "-") && !(is_bun && is_bun_subcommand(&a)) && is_script_like(&a) {
            assert(first_script(t, i as int, is_bun) == Some(t[i as int]));
            return Some(args[i].clone());
        }
        i = i + 1;
    }
    None
}

/// The fields of a path between `/` separators, from which `Path`
/// builds its components.
pub open spec fn last_normal(fs: Seq<Seq<char>>) -> Option<Seq<char>>
    decreases fs.len(),
{
    if fs.len() == 0 {
        None
    } else if fs.last().len() == 0 || fs.last() == "."@ {
        last_normal(fs.drop_last())
    } else {
        Some(fs.last())
    }
}

/// `Path::file_name`: the last component when it is a normal one (empty
/// components and `.` are skipped; a final `..` has none).
pub open spec fn file_name(p: Seq<char>) -> Option<Seq<char>> {
    match last_normal(split_on(p, '/')) {
        Some(n) => if n == ".."@ {
            None
        } else {
            Some(n)
        },
        None => None,
    }
}

/// `Path::file_stem` of a file name: the part before its last `.`, or
/// the whole name when it has no `.` or its only `.` comes first.
pub open spec fn file_stem(n: Seq<char>) -> Seq<char> {
    let k = last_index(n, '.');
    if k <= 0 {
        n
    } else {
        n.take(k)
    }
}

pub fn path_file_name(p: &Vec<char>) -> (res: Option<Vec<char>>)
    ensures
        match res {
            Some(v) => file_name(p@) == Some(v@),
            None => file_name(p@) is None,
        },
{
    let fields = split_fields(p, '/');
    let ghost fs = texts(fields@);
    let mut j: usize = fields.len();
    assert(fs.take(j as int) =~= fs);
    while j > 0
        invariant
            j <= fields@.len(),
            fs == texts(fields@),
            fs == split_on(p@, '/'),
            last_normal(fs) == last_normal(fs.take(j as int)),
        decreases j,
    {
        let ghost pre = fs.take(j as int);
        assert(pre.drop_last() =~= fs.take(j - 1));
        assert(pre.last() == fields@[j - 1]@);
        let f = &fields[j - 1];
        if f.len() == 0 || chars_eq_str(f, ".") {
            j = j - 1;
        } else {
            if chars_eq_str(f, "..") {
                return None;
            }
            return Some(slice_copy(f, 0, f.len()));
        }
    }
    None
}

pub fn path_file_stem(n: &Vec<char>) -> (res: Vec<char>)
    ensures
        res@ == file_stem(n@),
{
    match rfind_char(n, '.') {
        Some(k) => if k == 0 {
            slice_copy(n, 0, n.len())
        } else {
            slice_copy(n, 0, k)
        },
        None => slice_copy(n, 0, n.len()),
    }
}

/// The name a service is shown under: the stem of its script, else the
/// folder it runs in, else `fallback`.
pub open spec fn service_name_of(
    script: Option<Seq<char>>,
    cwd: Option<Seq<char>>,
    fallback: Seq<char>,
) -> Seq<char> {
    match script {
        Some(s) => match file_name(s) {
            Some(n) => file_stem(n),
            None => s,
        },
        None => match cwd {
            Some(d) => match file_name(d) {
                Some(f) => f,
                None => fallback,
            },
            None => fallback,
        },
    }
}

/// Build a human-friendly service name from available info.
pub fn derive_service_name(script: &Option<String>, cwd: &Option<String>, fallback: &str) -> (res:
    String)
    ensures
        res@ == service_name_of(script.deep_view(), cwd.deep_view(), fallback@),
{
    if let Some(s) = script {
        let sv = chars_of(s.as_str());
        return match path_file_name(&sv) {
            Some(n) => {
                let stem = path_file_stem(&n);
                string_of(&stem)
            },
            None => s.clone(),
        };
    }
    if let Some(dir) = cwd {
        let dv = chars_of(dir.as_str());
        if let Some(folder) = path_file_name(&dv) {
            return string_of(&folder);
        }
    }
    let fv = chars_of(fallback);
    string_of(&fv)
}


/// Text of a byte string read as UTF-8, each invalid sequence replaced
/// by U+FFFD (`String::from_utf8_lossy`).
pub uninterp spec fn lossy_text(b: Seq<u8>) -> Seq<char>;

/// Calls `String::from_utf8_lossy`. Its result is named `lossy_text` of
/// the bytes; its documentation gives that valid UTF-8 comes back as it is.
#[verifier::external_body]
fn utf8_lossy(b: &[u8]) -> (s: String)
    ensures
        s@ == lossy_text(b@),
        vstd::utf8::valid_utf8(b@) ==> s@ == vstd::utf8::decode_utf8(b@),
{
    String::from_utf8_lossy(b).into_owned()
}

/// The text of a command's output bytes, each invalid UTF-8 sequence
/// replaced by U+FFFD.
pub fn output_text(raw: &Vec<u8>) -> (s: String)
    ensures
        s@ == lossy_text(raw@),
        vstd::utf8::valid_utf8(raw@) ==> s@ == vstd::utf8::decode_utf8(raw@),
{
    utf8_lossy(raw.as_slice())
}

/// Index of the first zero byte, or the length when there is none.
pub open spec fn first_nul(b: Seq<u8>) -> nat
    decreases b.len(),
{
    if b.len() == 0 || b[0] == 0 {
        0
    } else {
        1 + first_nul(b.skip(1))
    }
}

pub proof fn lemma_first_nul(b: Seq<u8>, k: int)
    requires
        0 <= k <= b.len(),
        forall|i: int| 0 <= i < k ==> #[trigger] b[i] != 0,
        k == b.len() || b[k] == 0,
    ensures
        first_nul(b) == k,
    decreases k,
{
    if k > 0 {
        let t = b.skip(1);
        assert forall|i: int| 0 <= i < k - 1 implies #[trigger] t[i] != 0 by {
            assert(t[i] == b[i + 1]);
        }
        if k < b.len() {
            assert(t[k - 1] == b[k]);
        }
        lemma_first_nul(t, k - 1);
    }
}

/// The non-empty pieces of `b` between zero bytes.
pub open spec fn nul_fields(b: Seq<u8>) -> Seq<Seq<u8>>
    decreases b.len(),
{
    if b.len() == 0 {
        seq![]
    } else {
        let k = first_nul(b);
        if k == 0 {
            nul_fields(b.skip(1))
        } else if k >= b.len() {
            seq![b]
        } else {
            seq![b.take(k as int)] + nul_fields(b.skip(k + 1 as int))
        }
    }
}

/// The arguments of a NUL-separated command line, each read as lossy UTF-8.
pub open spec fn cmdline_texts(raw: Seq<u8>) -> Seq<Seq<char>> {
    nul_fields(raw).map_values(|f: Seq<u8>| lossy_text(f))
}

fn bytes_copy(b: &Vec<u8>, start: usize, end: usize) -> (res: Vec<u8>)
    requires
        start <= end <= b@.len(),
    ensures
        res@ == b@.subrange(start as int, end as int),
{
    let mut res: Vec<u8> = Vec::new();
    let mut i = start;
    while i < end
        invariant
            start <= i <= end <= b@.len(),
            res@ == b@.subrange(start as int, i as int),
        decreases end - i,
    {
        res.push(b[i]);
        i = i + 1;
        assert(res@ =~= b@.subrange(start as int, i as int));
    }
    res
}

/// The arguments of a raw `/proc/<pid>/cmdline`: the non-empty pieces
/// between NUL bytes, each as lossy UTF-8.
pub fn cmdline_args(raw: &Vec<u8>) -> (args: Vec<String>)
    ensures
        string_texts(args@) == cmdline_texts(raw@),
{
    let mut args: Vec<String> = Vec::new();
    let n = raw.len();
    let mut i: usize = 0;
    assert(raw@.skip(0) =~= raw@);
    assert(string_texts(args@) =~= Seq::<Seq<char>>::empty());
    assert(nul_fields(raw@).map_values(|f: Seq<u8>| lossy_text(f)) == string_texts(args@)
        + nul_fields(raw@.skip(0)).map_values(|f: Seq<u8>| lossy_text(f)));
    while i < n
        invariant
            n == raw@.len(),
            i <= n,
            cmdline_texts(raw@) == string_texts(args@) + cmdline_texts(raw@.skip(i as int)),
        decreases n - i,
    {
        let ghost rest = raw@.skip(i as int);
        let mut j = i;
        while j < n && raw[j] != 0
            invariant
                i <= j <= n == raw@.len(),
                forall|k: int| i <= k < j ==> #[trigger] raw@[k] != 0,
            decreases n - j,
        {
            j = j + 1;
        }
        proof {
            assert forall|k: int| 0 <= k < j - i implies #[trigger] rest[k] != 0 by {
                assert(rest[k] == raw@[i + k]);
            }
            if j < n {
                assert(rest[j - i] == raw@[j as int]);
            }
            lemma_first_nul(rest, j - i);
        }
        if j == i {
            assert(rest.skip(1) =~= raw@.skip(i + 1));
            i = i + 1;
        } else {
            let piece = bytes_copy(raw, i, j);
            let text = utf8_lossy(piece.as_slice());
            let ghost old_args = string_texts(args@);
            args.push(text);
            assert(string_texts(args@) =~= old_args.push(text@));
            if j < n {
                assert(rest.take(j - i) =~= piece@);
                assert(rest.skip(j - i + 1) =~= raw@.skip(j + 1));
                assert(nul_fields(rest) == seq![piece@] + nul_fields(raw@.skip(j + 1)));
                assert(cmdline_texts(rest) =~= seq![text@] + cmdline_texts(raw@.skip(j + 1)));
                assert(old_args + cmdline_texts(rest) =~= string_texts(args@) + cmdline_texts(
                    raw@.skip(j + 1),
                ));
                i = j + 1;
            } else {
                assert(rest =~= piece@);
                assert(nul_fields(rest) == seq![piece@]);
                assert(cmdline_texts(rest) =~= seq![text@]);
                assert(raw@.skip(n as int) =~= Seq::<u8>::empty());
                assert(cmdline_texts(raw@.skip(n as int)) =~= Seq::<Seq<char>>::empty());
                assert(old_args + cmdline_texts(rest) =~= string_texts(args@) + cmdline_texts(
                    raw@.skip(n as int),
                ));
                i = n;
            }
        }
    }
    assert(raw@.skip(n as int) =~= Seq::<u8>::empty());
    assert(cmdline_texts(raw@.skip(n as int)) =~= Seq::<Seq<char>>::empty());
    assert(string_texts(args@) + Seq::<Seq<char>>::empty() =~= string_texts(args@));
    args
}

/// Whether a process of runtime `rt` is kept when only Node/Bun
/// processes are asked for.
pub open spec fn admitted(rt: RuntimeModel, node_only: bool) -> bool {
    !node_only || rt is Node || rt is Bun
}

/// The process described by one `/proc/<pid>` entry: its `comm` text
/// (trimmed), its raw command line (absent when it could not be read),
/// its working directory and its socket inodes. `None` when the process is
/// filtered out by `node_only`, or when the command line is absent.
pub open spec fn entry_admitted(comm_raw: Seq<char>, node_only: bool, has_cmdline: bool) -> bool {
    admitted(classify(trim(comm_raw)), node_only) && has_cmdline
}

/// Whether a process whose `comm` text is `comm_raw` is kept: with
/// `node_only`, only Node and Bun processes are.
pub fn wants_process(comm_raw: &str, node_only: bool) -> (b: bool)
    ensures
        b == admitted(classify(trim(comm_raw@)), node_only),
{
    let cv = chars_of(comm_raw);
    let comm = trim_chars(&cv);
    let name = string_of(&comm);
    let rt = classify_runtime(name.as_str());
    !node_only || rt.is_node_or_bun()
}

pub fn process_entry(
    pid: u32,
    comm_raw: &str,
    node_only: bool,
    cmdline: Option<&Vec<u8>>,
    cwd: Option<String>,
    socket_inodes: Vec<u64>,
) -> (res: Option<ProcessInfo>)
    ensures
        res is Some <==> entry_admitted(comm_raw@, node_only, cmdline is Some),
        res matches Some(p) ==> {
            let comm = trim(comm_raw@);
            let args = cmdline_texts(cmdline->0@);
            let script = first_script(args, 1, classify(comm) is Bun);
            &&& p.pid == pid
            &&& p.name@ == comm
            &&& p.runtime@ == classify(comm)
            &&& p.script.deep_view() == script
            &&& p.cwd == cwd
            &&& p.service_name@ == service_name_of(script, cwd.deep_view(), comm)
            &&& p.ports@.len() == 0
            &&& p.socket_inodes == socket_inodes
        },
{
    let cv = chars_of(comm_raw);
    let comm_chars = trim_chars(&cv);
    let comm = string_of(&comm_chars);
    let runtime = classify_runtime(comm.as_str());
    if node_only && !runtime.is_node_or_bun() {
        return None;
    }
    let raw = match cmdline {
        Some(r) => r,
        None => return None,
    };
    let args = cmdline_args(raw);
    let script = extract_script(&args, &runtime);
    let service_name = derive_service_name(&script, &cwd, comm.as_str());
    Some(ProcessInfo {
        pid,
        name: comm,
        runtime,
        script,
        cwd,
        service_name,
        ports: Vec::new(),
        socket_inodes,
    })
}

/// The inode in a socket link target such as `socket:[12345]`.
pub open spec fn socket_inode_of(t: Seq<char>) -> Option<nat> {
    if has_prefix(t, "socket:["@) && has_suffix(t.skip("socket:["@.len() as int), "]"@) {
        let inner = t.skip("socket:["@.len() as int);
        parse_uint(inner.take(inner.len() - "]"@.len()), 10, 0xffff_ffff_ffff_ffff)
    } else {
        None
    }
}

pub fn socket_inode(target: &str) -> (res: Option<u64>)
    ensures
        match socket_inode_of(target@) {
            Some(v) => res == Some(v as u64),
            None => res is None,
        },
{
    let t = chars_of(target);
    let prefix = chars_of("socket:[");
    let suffix = chars_of("]");
    if !crate::text::starts_with(&t, &prefix) {
        return None;
    }
    let inner = slice_copy(&t, prefix.len(), t.len());
    if !crate::text::ends_with(&inner, &suffix) {
        return None;
    }
    let digits = slice_copy(&inner, 0, inner.len() - suffix.len());
    parse_uint_chars(&digits, 10, 0xffff_ffff_ffff_ffff)
}

/// The pid named by a `/proc` entry name, if it is one.
pub fn pid_of_entry_name(name: &str) -> (res: Option<u32>)
    ensures
        match parse_uint(name@, 10, 0xffff_ffff) {
            Some(v) => res == Some(v as u32),
            None => res is None,
        },
{
    let v = chars_of(name);
    match parse_uint_chars(&v, 10, 0xffff_ffff) {
        Some(x) => Some(x as u32),
        None => None,
    }
}

} // verus!
