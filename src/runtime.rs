//! Runtime resolution: what a version probe printed, which interpreter is
//! adopted, the status reported to the host, how interpreters found in an
//! archive are ranked, and how the worker is launched.

use vstd::prelude::*;
use crate::text::{eq_ignore_ascii_case, trim, equals_ignore_ascii_case, str_equals, trim_str};
use crate::version::{line_supported, parse_version, is_supported_python_version, parse_python_version};

verus! {

/// Where an interpreter came from.
#[derive(Clone, Copy, Debug, PartialEq, Eq, Structural)]
pub enum RuntimeSource {
    /// The path saved in the runtime configuration.
    Configured,
    /// An interpreter found on the search path.
    System,
    /// A bundle downloaded from a manifest.
    Download,
    /// An archive chosen by the user.
    Archive,
}

pub open spec fn source_label(s: RuntimeSource) -> Seq<char> {
    match s {
        RuntimeSource::Configured => "configured"@,
        RuntimeSource::System => "system"@,
        RuntimeSource::Download => "download"@,
        RuntimeSource::Archive => "archive"@,
    }
}

impl RuntimeSource {
    /// The name of the source in a runtime status.
    pub fn label(&self) -> (r: String)
        ensures
            r@ == source_label(*self),
    {
        match self {
            RuntimeSource::Configured => String::from_str("configured"),
            RuntimeSource::System => String::from_str("system"),
            RuntimeSource::Download => String::from_str("download"),
            RuntimeSource::Archive => String::from_str("archive"),
        }
    }
}

/// A usable interpreter: where it came from, its path, and its version line.
#[derive(Clone, Debug)]
pub struct PythonRuntime {
    pub source: RuntimeSource,
    pub executable_path: String,
    pub version: String,
}

/// What the host is told about the runtime.
#[derive(Clone, Debug)]
pub struct RuntimeStatus {
    pub ready: bool,
    pub source: String,
    pub executable_path: Option<String>,
    pub version: Option<String>,
    pub message: String,
}

pub open spec fn opt_text(o: Option<String>) -> Option<Seq<char>> {
    match o {
        Some(s) => Some(s@),
        None => None,
    }
}

/// The version line of a probe: the trimmed standard output, or the trimmed
/// error output when the former is empty; none when the probe failed, the line
/// is empty, or it does not parse as a version.
pub open spec fn probe_line(success: bool, stdout: Seq<char>, stderr: Seq<char>) -> Option<Seq<char>> {
    if !success {
        None
    } else {
        let line = if trim(stdout).len() > 0 {
            trim(stdout)
        } else {
            trim(stderr)
        };
        if line.len() == 0 || parse_version(line).is_none() {
            None
        } else {
            Some(line)
        }
    }
}

pub open spec fn system_ready_text() -> Seq<char> {
    "检测到系统 Python，可直接使用"@
}

pub open spec fn runtime_ready_text() -> Seq<char> {
    "Python 运行时可用"@
}

pub open spec fn runtime_missing_text() -> Seq<char> {
    "未检测到 Python 运行时，请导入运行时压缩包或手动指定可执行文件"@
}

pub open spec fn no_interpreter_text() -> Seq<char> {
    "未找到可用 Python 运行时，请先在客户端完成 Python 运行时设置"@
}

/// The version line a probe printed, as [`probe_line`] says.
pub fn version_line_from_output(success: bool, stdout: &str, stderr: &str) -> (r: Option<String>)
    ensures
        opt_text(r) == probe_line(success, stdout@, stderr@),
{
    if !success {
        return None;
    }
    let out = trim_str(stdout);
    let line = if out.unicode_len() > 0 {
        out
    } else {
        trim_str(stderr)
    };
    if line.unicode_len() == 0 {
        return None;
    }
    if parse_python_version(line.as_str()).is_none() {
        return None;
    }
    Some(line)
}

/// Adopts an interpreter whose probe printed `version_line`, if that line meets
/// the minimum version.
pub fn adopt_runtime(source: RuntimeSource, path: String, version_line: Option<String>) -> (r: Option<
    PythonRuntime,
>)
    ensures
        r.is_some() == (version_line matches Some(l) && line_supported(l@)),
        r matches Some(rt) ==> rt.source == source && rt.executable_path@ == path@ && opt_text(
            version_line,
        ) == Some(rt.version@) && line_supported(rt.version@),
{
    match version_line {
        Some(line) => {
            if is_supported_python_version(line.as_str()) {
                Some(PythonRuntime { source, executable_path: path, version: line })
            } else {
                None
            }
        },
        None => None,
    }
}

/// Interpreter names tried on the search path: `python3` before `python`, the
/// other way round on Windows.
pub fn system_interpreter_names(windows: bool) -> (r: Vec<String>)
    ensures
        r@.len() == 2,
        windows ==> r@[0]@ == "python"@ && r@[1]@ == "python3"@,
        !windows ==> r@[0]@ == "python3"@ && r@[1]@ == "python"@,
{
    let mut names: Vec<String> = Vec::new();
    if windows {
        names.push(String::from_str("python"));
        names.push(String::from_str("python3"));
    } else {
        names.push(String::from_str("python3"));
        names.push(String::from_str("python"));
    }
    names
}

/// The status of a resolved runtime, or of its absence.
pub fn runtime_status(runtime: Option<PythonRuntime>) -> (r: RuntimeStatus)
    ensures
        r.ready == runtime.is_some(),
        runtime matches Some(rt) ==> r.source@ == source_label(rt.source) && opt_text(
            r.executable_path,
        ) == Some(rt.executable_path@) && opt_text(r.version) == Some(rt.version@) && r.message@
            == (if rt.source == RuntimeSource::System {
            system_ready_text()
        } else {
            runtime_ready_text()
        }),
        runtime.is_none() ==> r.source@ == "none"@ && r.executable_path.is_none()
            && r.version.is_none() && r.message@ == runtime_missing_text(),
{
    match runtime {
        Some(rt) => {
            let message = if rt.source == RuntimeSource::System {
                String::from_str("检测到系统 Python，可直接使用")
            } else {
                String::from_str("Python 运行时可用")
            };
            RuntimeStatus {
                ready: true,
                source: rt.source.label(),
                executable_path: Some(rt.executable_path),
                version: Some(rt.version),
                message,
            }
        },
        None => RuntimeStatus {
            ready: false,
            source: String::from_str("none"),
            executable_path: None,
            version: None,
            message: String::from_str("未检测到 Python 运行时，请导入运行时压缩包或手动指定可执行文件"),
        },
    }
}

/// The status of an interpreter just adopted by a provisioning step.
pub fn adopted_status(runtime: PythonRuntime, message: &str) -> (r: RuntimeStatus)
    ensures
        r.ready,
        r.source@ == source_label(runtime.source),
        opt_text(r.executable_path) == Some(runtime.executable_path@),
        opt_text(r.version) == Some(runtime.version@),
        r.message@ == message@,
{
    RuntimeStatus {
        ready: true,
        source: runtime.source.label(),
        executable_path: Some(runtime.executable_path),
        version: Some(runtime.version),
        message: String::from_str(message),
    }
}

/// How the worker process is launched.
#[derive(Clone, Debug)]
pub enum WorkerLaunch {
    /// The interpreter of the project's own virtual environment.
    ProjectInterpreter(String),
    /// The toolchain manager's `run` facility (the manager's path).
    ManagerRun(String),
    /// The resolved runtime's interpreter.
    Runtime(String),
}

/// Chooses how to launch the worker, first success winning: the project's own
/// interpreter, then the toolchain manager (both only beside a project
/// descriptor), then the resolved runtime; with none of them, an error.
pub fn choose_worker_launch(
    has_project_descriptor: bool,
    project_python: Option<String>,
    manager: Option<String>,
    runtime: Option<PythonRuntime>,
) -> (r: Result<WorkerLaunch, String>)
    ensures
        has_project_descriptor && project_python is Some ==> (r matches Ok(
            WorkerLaunch::ProjectInterpreter(p),
        ) && Some(p@) == opt_text(project_python)),
        has_project_descriptor && project_python is None && manager is Some ==> (r matches Ok(
            WorkerLaunch::ManagerRun(m),
        ) && Some(m@) == opt_text(manager)),
        !(has_project_descriptor && (project_python is Some || manager is Some)) ==> match runtime {
            Some(rt) => r matches Ok(WorkerLaunch::Runtime(p)) && p@ == rt.executable_path@,
            None => r matches Err(e) && e@ == no_interpreter_text(),
        },
{
    if has_project_descriptor {
        if let Some(p) = project_python {
            return Ok(WorkerLaunch::ProjectInterpreter(p));
        }
        if let Some(m) = manager {
            return Ok(WorkerLaunch::ManagerRun(m));
        }
    }
    match runtime {
        Some(rt) => Ok(WorkerLaunch::Runtime(rt.executable_path)),
        None => Err(String::from_str("未找到可用 Python 运行时，请先在客户端完成 Python 运行时设置")),
    }
}

/// An interpreter file found in an unpacked archive: its file name and the
/// components of its path.
#[derive(Clone, Debug)]
pub struct InterpreterCandidate {
    pub file_name: String,
    pub components: Vec<String>,
}

pub open spec fn python3_name() -> Seq<char> {
    seq!['p', 'y', 't', 'h', 'o', 'n', '3']
}

pub open spec fn bin_name() -> Seq<char> {
    seq!['b', 'i', 'n']
}

/// File names taken for an interpreter, ignoring ASCII case.
pub open spec fn interpreter_file_name(name: Seq<char>) -> bool {
    eq_ignore_ascii_case(name, python3_name()) || eq_ignore_ascii_case(
        name,
        seq!['p', 'y', 't', 'h', 'o', 'n'],
    ) || eq_ignore_ascii_case(name, seq!['p', 'y', 't', 'h', 'o', 'n', '.', 'e', 'x', 'e'])
}

/// The ranking key of a candidate, smaller first: a `python3` file name first,
/// then a path through a `bin` directory, then fewer path components.
pub open spec fn rank_key(c: InterpreterCandidate) -> (int, int, int) {
    (
        if eq_ignore_ascii_case(c.file_name@, python3_name()) {
            0
        } else {
            1
        },
        if exists|i: int| 0 <= i < c.components@.len() && (#[trigger] c.components@[i])@ == bin_name() {
            0
        } else {
            1
        },
        c.components@.len() as int,
    )
}

/// Lexicographic order on ranking keys.
pub open spec fn key_le(a: (int, int, int), b: (int, int, int)) -> bool {
    a.0 < b.0 || (a.0 == b.0 && (a.1 < b.1 || (a.1 == b.1 && a.2 <= b.2)))
}

/// `order` lists each index of `cands` once, by ranking key, equal keys in
/// the order they were given.
pub open spec fn is_ranked_order(cands: Seq<InterpreterCandidate>, order: Seq<usize>) -> bool {
    &&& order.len() == cands.len()
    &&& order.no_duplicates()
    &&& forall|i: int| 0 <= i < order.len() ==> (#[trigger] order[i]) < cands.len()
    &&& forall|x: usize| x < cands.len() ==> order.contains(x)
    &&& forall|a: int, b: int|
        0 <= a < b < order.len() ==> key_le(
            rank_key(cands[order[a] as int]),
            rank_key(cands[order[b] as int]),
        )
    &&& forall|a: int, b: int|
        0 <= a < b < order.len() && rank_key(cands[order[a] as int]) == rank_key(
            cands[order[b] as int],
        ) ==> order[a] < order[b]
}

/// Whether `name` is an interpreter file name (`python3`, `python` or
/// `python.exe`, ignoring ASCII case).
pub fn is_interpreter_file_name(name: &str) -> (r: bool)
    ensures
        r == interpreter_file_name(name@),
{
    proof {
        reveal_strlit("python3");
        reveal_strlit("python");
        reveal_strlit("python.exe");
    }
    let a = "python3";
    let b = "python";
    let c = "python.exe";
    assert(a@ =~= python3_name());
    assert(b@ =~= seq!['p', 'y', 't', 'h', 'o', 'n']);
    assert(c@ =~= seq!['p', 'y', 't', 'h', 'o', 'n', '.', 'e', 'x', 'e']);
    equals_ignore_ascii_case(name, a) || equals_ignore_ascii_case(name, b) || equals_ignore_ascii_case(
        name,
        c,
    )
}

/// The ranking key of a candidate, as [`rank_key`] says.
pub fn candidate_rank(c: &InterpreterCandidate) -> (r: (u8, u8, usize))
    ensures
        (r.0 as int, r.1 as int, r.2 as int) == rank_key(*c),
{
    proof {
        reveal_strlit("python3");
        reveal_strlit("bin");
    }
    let p3 = "python3";
    let bin = "bin";
    assert(p3@ =~= python3_name());
    assert(bin@ =~= bin_name());
    let name_rank: u8 = if equals_ignore_ascii_case(c.file_name.as_str(), p3) {
        0
    } else {
        1
    };
    let mut has_bin = false;
    let mut i: usize = 0;
    while i < c.components.len()
        invariant
            i <= c.components@.len(),
            bin@ == bin_name(),
            has_bin == exists|k: int| 0 <= k < i && (#[trigger] c.components@[k])@ == bin_name(),
        decreases c.components@.len() - i,
    {
        if str_equals(c.components[i].as_str(), bin) {
            has_bin = true;
        }
        i = i + 1;
    }
    let dir_rank: u8 = if has_bin {
        0
    } else {
        1
    };
    (name_rank, dir_rank, c.components.len())
}

fn rank_le(a: (u8, u8, usize), b: (u8, u8, usize)) -> (r: bool)
    ensures
        r == key_le((a.0 as int, a.1 as int, a.2 as int), (b.0 as int, b.1 as int, b.2 as int)),
{
    a.0 < b.0 || (a.0 == b.0 && (a.1 < b.1 || (a.1 == b.1 && a.2 <= b.2)))
}

/// The order in which interpreter candidates are tried: by ranking key, equal
/// keys in the order they were found.
pub fn order_interpreter_candidates(cands: &Vec<InterpreterCandidate>) -> (r: Vec<usize>)
    ensures
        is_ranked_order(cands@, r@),
{
    let n = cands.len();
    let mut keys: Vec<(u8, u8, usize)> = Vec::new();
    let mut k: usize = 0;
    while k < n
        invariant
            n == cands@.len(),
            k <= n,
            keys@.len() == k,
            forall|i: int|
                0 <= i < k ==> ((#[trigger] keys@[i]).0 as int, keys@[i].1 as int, keys@[i].2 as int)
                    == rank_key(cands@[i]),
        decreases n - k,
    {
        keys.push(candidate_rank(&cands[k]));
        k = k + 1;
    }
    let ghost ks = Seq::new(n as nat, |i: int| rank_key(cands@[i]));
    let mut order: Vec<usize> = Vec::new();
    let mut k: usize = 0;
    while k < n
        invariant
            n == cands@.len(),
            keys@.len() == n,
            k <= n,
            forall|i: int| 0 <= i < n ==> #[trigger] ks[i] == rank_key(cands@[i]),
            forall|i: int|
                0 <= i < n ==> ((#[trigger] keys@[i]).0 as int, keys@[i].1 as int, keys@[i].2 as int)
                    == ks[i],
            order@.len() == k,
            order@.no_duplicates(),
            forall|i: int| 0 <= i < order@.len() ==> (#[trigger] order@[i]) < k,
            forall|x: usize| x < k ==> order@.contains(x),
            forall|a: int, b: int|
                0 <= a < b < order@.len() ==> key_le(ks[order@[a] as int], ks[order@[b] as int]),
            forall|a: int, b: int|
                0 <= a < b < order@.len() && ks[order@[a] as int] == ks[order@[b] as int]
                    ==> order@[a] < order@[b],
        decreases n - k,
    {
        let kk = keys[k];
        let ghost kv = ks[k as int];
        let mut p: usize = 0;
        while p < order.len() && rank_le(keys[order[p]], kk)
            invariant
                n == cands@.len(),
                keys@.len() == n,
                k < n,
                kk == keys@[k as int],
                kv == ks[k as int],
                (kk.0 as int, kk.1 as int, kk.2 as int) == kv,
                forall|i: int|
                    0 <= i < n ==> ((#[trigger] keys@[i]).0 as int, keys@[i].1 as int, keys@[i].2 as int)
                        == ks[i],
                p <= order@.len(),
                forall|i: int| 0 <= i < order@.len() ==> (#[trigger] order@[i]) < k,
                forall|q: int| 0 <= q < p ==> key_le(#[trigger] ks[order@[q] as int], kv),
            decreases order@.len() - p,
        {
            p = p + 1;
        }
        let ghost old_order = order@;
        proof {
            if p < old_order.len() {
                assert(!key_le(ks[old_order[p as int] as int], kv));
                assert forall|q: int| p <= q < old_order.len() implies !key_le(
                    #[trigger] ks[old_order[q] as int],
                    kv,
                ) by {
                    if q > p {
                        assert(key_le(ks[old_order[p as int] as int], ks[old_order[q] as int]));
                    }
                }
            }
        }
        order.insert(p, k);
        proof {
            let s = order@;
            assert(s == old_order.insert(p as int, k));
            assert forall|i: int| 0 <= i < s.len() implies (#[trigger] s[i]) < k + 1 by {
                if i < p {
                    assert(s[i] == old_order[i]);
                } else if i > p {
                    assert(s[i] == old_order[i - 1]);
                }
            }
            assert forall|x: usize| x < k + 1 implies s.contains(x) by {
                if x == k {
                    assert(s[p as int] == k);
                } else {
                    assert(old_order.contains(x));
                    let j = choose|j: int| 0 <= j < old_order.len() && old_order[j] == x;
                    if j < p {
                        assert(s[j] == x);
                    } else {
                        assert(s[j + 1] == x);
                    }
                }
            }
            assert forall|a: int, b: int| 0 <= a < b < s.len() implies s[a] != s[b] by {
                if a < p && b < p {
                    assert(s[a] == old_order[a] && s[b] == old_order[b]);
                } else if a < p && b == p {
                    assert(s[a] == old_order[a]);
                } else if a < p && b > p {
                    assert(s[a] == old_order[a] && s[b] == old_order[b - 1]);
                } else if a == p {
                    assert(s[b] == old_order[b - 1]);
                } else {
                    assert(s[a] == old_order[a - 1] && s[b] == old_order[b - 1]);
                }
            }
            assert forall|a: int, b: int| 0 <= a < b < s.len() implies key_le(
                ks[s[a] as int],
                ks[s[b] as int],
            ) && (ks[s[a] as int] == ks[s[b] as int] ==> s[a] < s[b]) by {
                if a < p && b < p {
                    assert(s[a] == old_order[a] && s[b] == old_order[b]);
                } else if a < p && b == p {
                    assert(s[a] == old_order[a]);
                } else if a < p && b > p {
                    assert(s[a] == old_order[a] && s[b] == old_order[b - 1]);
                    assert(!key_le(ks[old_order[b - 1] as int], kv));
                } else if a == p {
                    assert(s[b] == old_order[b - 1]);
                    assert(!key_le(ks[old_order[b - 1] as int], kv));
                } else {
                    assert(s[a] == old_order[a - 1] && s[b] == old_order[b - 1]);
                }
            }
        }
        k = k + 1;
    }
    proof {
        assert forall|i: int| 0 <= i < n implies ks[i] == rank_key(cands@[i]) by {}
    }
    order
}

/// An interpreter path inside a project, with what was found out about it: whether
/// the file exists and, if it was probed, the version line it printed.
#[derive(Clone, Debug)]
pub struct ProbedInterpreter {
    pub path: String,
    pub exists: bool,
    pub version_line: Option<String>,
}

/// An existing interpreter whose version line meets the minimum version.
pub open spec fn usable_interpreter(c: ProbedInterpreter) -> bool {
    c.exists && (c.version_line matches Some(l) && line_supported(l@))
}

/// Paths, relative to a project root, of the interpreters of its virtual
/// environment, in the order they are tried.
pub fn project_interpreter_candidates(windows: bool) -> (r: Vec<Vec<String>>)
    ensures
        r@.len() == 2,
        windows ==> texts_of(r@[0]) == seq![".venv"@, "Scripts"@, "python.exe"@] && texts_of(r@[1])
            == seq![".venv"@, "python.exe"@],
        !windows ==> texts_of(r@[0]) == seq![".venv"@, "bin"@, "python3"@] && texts_of(r@[1])
            == seq![".venv"@, "bin"@, "python"@],
{
    let mut first: Vec<String> = Vec::new();
    let mut second: Vec<String> = Vec::new();
    first.push(String::from_str(".venv"));
    second.push(String::from_str(".venv"));
    if windows {
        first.push(String::from_str("Scripts"));
        first.push(String::from_str("python.exe"));
        second.push(String::from_str("python.exe"));
    } else {
        first.push(String::from_str("bin"));
        first.push(String::from_str("python3"));
        second.push(String::from_str("bin"));
        second.push(String::from_str("python"));
    }
    assert(texts_of(first) =~= (if windows {
        seq![".venv"@, "Scripts"@, "python.exe"@]
    } else {
        seq![".venv"@, "bin"@, "python3"@]
    }));
    assert(texts_of(second) =~= (if windows {
        seq![".venv"@, "python.exe"@]
    } else {
        seq![".venv"@, "bin"@, "python"@]
    }));
    let mut r: Vec<Vec<String>> = Vec::new();
    r.push(first);
    r.push(second);
    r
}

pub open spec fn texts_of(v: Vec<String>) -> Seq<Seq<char>> {
    v@.map_values(|s: String| s@)
}

/// The project's own interpreter: the first candidate that exists and whose
/// version meets the minimum version.
pub fn find_project_python(candidates: &Vec<ProbedInterpreter>) -> (r: Option<String>)
    ensures
        r.is_none() <==> forall|i: int|
            0 <= i < candidates@.len() ==> !usable_interpreter(#[trigger] candidates@[i]),
        r matches Some(p) ==> exists|i: int|
            0 <= i < candidates@.len() && usable_interpreter(#[trigger] candidates@[i]) && p@
                == candidates@[i].path@ && forall|j: int|
                0 <= j < i ==> !usable_interpreter(#[trigger] candidates@[j]),
{
    let mut i: usize = 0;
    while i < candidates.len()
        invariant
            i <= candidates@.len(),
            forall|j: int| 0 <= j < i ==> !usable_interpreter(#[trigger] candidates@[j]),
        decreases candidates@.len() - i,
    {
        let c = &candidates[i];
        if c.exists {
            match &c.version_line {
                Some(line) => {
                    if is_supported_python_version(line.as_str()) {
                        assert(usable_interpreter(candidates@[i as int]));
                        return Some(String::from_str(c.path.as_str()));
                    }
                },
                None => {},
            }
        }
        i = i + 1;
    }
    None
}

/// Position `i` of `order` names a probed candidate whose version line meets
/// the minimum version.
pub open spec fn supported_at(order: Seq<usize>, probed: Seq<Option<String>>, i: int) -> bool {
    order[i] < probed.len() && (probed[order[i] as int] matches Some(l) && line_supported(l@))
}

/// The first candidate, in the ranked `order`, whose probe printed a version
/// that meets the minimum version.
pub fn first_supported(order: &Vec<usize>, probed: &Vec<Option<String>>) -> (r: Option<usize>)
    ensures
        r.is_none() <==> forall|i: int| 0 <= i < order@.len() ==> !supported_at(order@, probed@, i),
        r matches Some(k) ==> exists|i: int|
            0 <= i < order@.len() && supported_at(order@, probed@, i) && order@[i] == k && forall|
                j: int,
            |
                0 <= j < i ==> !supported_at(order@, probed@, j),
{
    let mut i: usize = 0;
    while i < order.len()
        invariant
            i <= order@.len(),
            forall|j: int| 0 <= j < i ==> !supported_at(order@, probed@, j),
        decreases order@.len() - i,
    {
        let k = order[i];
        if k < probed.len() {
            match &probed[k] {
                Some(line) => {
                    if is_supported_python_version(line.as_str()) {
                        assert(supported_at(order@, probed@, i as int));
                        return Some(k);
                    }
                },
                None => {},
            }
        }
        i = i + 1;
    }
    None
}

pub open spec fn configured_usable(c: Option<ProbedInterpreter>) -> bool {
    match c {
        Some(p) => usable_interpreter(p),
        None => false,
    }
}

/// Resolves the runtime: the configured interpreter if it is usable, otherwise
/// the first usable system interpreter, in the order given; none if nothing
/// qualifies.
pub fn resolve_runtime(configured: Option<ProbedInterpreter>, system: &Vec<ProbedInterpreter>) -> (r:
    Option<PythonRuntime>)
    ensures
        configured_usable(configured) ==> (r matches Some(rt) && rt.source
            == RuntimeSource::Configured && rt.executable_path@ == configured->Some_0.path@
            && opt_text(configured->Some_0.version_line) == Some(rt.version@)),
        !configured_usable(configured) ==> {
            &&& r.is_none() <==> forall|i: int|
                0 <= i < system@.len() ==> !usable_interpreter(#[trigger] system@[i])
            &&& r matches Some(rt) ==> rt.source == RuntimeSource::System && exists|i: int|
                0 <= i < system@.len() && usable_interpreter(#[trigger] system@[i])
                    && rt.executable_path@ == system@[i].path@ && opt_text(system@[i].version_line)
                    == Some(rt.version@) && forall|j: int|
                    0 <= j < i ==> !usable_interpreter(#[trigger] system@[j])
        },
{
    let ghost cfg = configured;
    if let Some(c) = configured {
        if c.exists {
            let found = adopt_runtime(RuntimeSource::Configured, c.path, c.version_line);
            if found.is_some() {
                return found;
            }
        }
    }
    assert(!configured_usable(cfg));
    let mut i: usize = 0;
    while i < system.len()
        invariant
            i <= system@.len(),
            !configured_usable(cfg),
            cfg == configured,
            forall|j: int| 0 <= j < i ==> !usable_interpreter(#[trigger] system@[j]),
        decreases system@.len() - i,
    {
        let c = &system[i];
        if c.exists {
            match &c.version_line {
                Some(line) => {
                    if is_supported_python_version(line.as_str()) {
                        assert(usable_interpreter(system@[i as int]));
                        return Some(
                            PythonRuntime {
                                source: RuntimeSource::System,
                                executable_path: String::from_str(c.path.as_str()),
                                version: String::from_str(line.as_str()),
                            },
                        );
                    }
                },
                None => {},
            }
        }
        i = i + 1;
    }
    None
}

} // verus!
