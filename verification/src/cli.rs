//! Command-line decisions: argument rewriting, target and environment
//! parsing, what to scan, the exit status, and the detector catalog.
use vstd::prelude::*;
use crate::report::{any_at_least, ScanReport};
use crate::text::{chars_of, is_suffix, ends_with_str, str_eq};
use crate::types::{strs_view, Severity};

verus! {

/// Why a command line was refused.
#[derive(Debug)]
pub enum CliError {
    /// Both `--command`/`--arg` and a trailing `-- prog args`.
    BothTargets,
    /// An `--env` value without `=`.
    EnvNotPair { arg: String },
    /// An `--env` value with an empty key.
    EnvEmptyKey { arg: String },
    /// Both a tools-list path and a server command.
    BothSources,
    /// Neither a tools-list path nor a server command.
    NoSource,
    /// An unknown `--fail-on` level.
    BadThreshold { value: String },
}

impl CliError {
    /// The text of the error.
    pub open spec fn spec_message(&self) -> Seq<char> {
        match self {
            CliError::BothTargets => "use either --command/--arg or trailing `-- prog args`, not both"@,
            CliError::EnvNotPair { arg } => "--env expects KEY=VALUE, got "@ + arg@,
            CliError::EnvEmptyKey { arg } => "empty env key in "@ + arg@,
            CliError::BothSources => "use either a tools-list JSON or a server command, not both"@,
            CliError::NoSource => "what should I scan?\n  mcpdoctor tools.json\n  mcpdoctor a.json b.json\n  mcpdoctor scan -- python -m my_mcp"@,
            CliError::BadThreshold { value } => "invalid --fail-on "@ + value@,
        }
    }

    /// The text of the error.
    pub fn message(&self) -> (r: String)
        ensures
            r@ == self.spec_message(),
    {
        match self {
            CliError::BothTargets => "use either --command/--arg or trailing `-- prog args`, not both".to_owned(),
            CliError::EnvNotPair { arg } => {
                let mut r = "--env expects KEY=VALUE, got ".to_owned();
                r.append(arg.as_str());
                r
            },
            CliError::EnvEmptyKey { arg } => {
                let mut r = "empty env key in ".to_owned();
                r.append(arg.as_str());
                r
            },
            CliError::BothSources => "use either a tools-list JSON or a server command, not both".to_owned(),
            CliError::NoSource => "what should I scan?\n  mcpdoctor tools.json\n  mcpdoctor a.json b.json\n  mcpdoctor scan -- python -m my_mcp".to_owned(),
            CliError::BadThreshold { value } => {
                let mut r = "invalid --fail-on ".to_owned();
                r.append(value.as_str());
                r
            },
        }
    }
}

// ---------------------------------------------------------------------
// Argument rewriting
// ---------------------------------------------------------------------

/// `s` starts with `-`.
pub open spec fn dashed(s: Seq<char>) -> bool {
    s.len() > 0 && s[0] == '-'
}

/// An argument that names a tools list: not an option, and either a
/// `.json` name or an existing file (`is_file`).
pub open spec fn list_like(s: Seq<char>, is_file: bool) -> bool {
    !dashed(s) && (is_suffix(".json"@, s) || is_file)
}

fn starts_with_dash(s: &str) -> (r: bool)
    ensures
        r == dashed(s@),
{
    let cs = chars_of(s);
    cs.len() > 0 && cs[0] == '-'
}

/// Whether `s` names a tools list; `is_file` tells whether it names an
/// existing file.
pub fn looks_like_list_path(s: &str, is_file: bool) -> (r: bool)
    ensures
        r == list_like(s@, is_file),
{
    if starts_with_dash(s) {
        return false;
    }
    ends_with_str(s, ".json") || is_file
}

/// The subcommand names (with the `doctor` and `audit` aliases).
pub open spec fn is_subcommand(s: Seq<char>) -> bool {
    ||| s == "scan"@
    ||| s == "doctor"@
    ||| s == "audit"@
    ||| s == "multi"@
    ||| s == "pin"@
    ||| s == "check"@
    ||| s == "detectors"@
    ||| s == "help"@
}

fn subcommand_name(s: &str) -> (r: bool)
    ensures
        r == is_subcommand(s@),
{
    str_eq(s, "scan") || str_eq(s, "doctor") || str_eq(s, "audit") || str_eq(s, "multi") || str_eq(s, "pin")
        || str_eq(s, "check") || str_eq(s, "detectors") || str_eq(s, "help")
}

/// Whether argument `i` names an existing file (`false` when not told).
pub open spec fn file_at(flags: Seq<bool>, i: int) -> bool {
    0 <= i < flags.len() && flags[i]
}

/// Number of consecutive list-like arguments from position `i` on.
pub open spec fn lead_paths(raw: Seq<Seq<char>>, flags: Seq<bool>, i: int) -> nat
    decreases raw.len() - i,
{
    if i < 1 || i >= raw.len() {
        0
    } else if list_like(raw[i], file_at(flags, i)) {
        1 + lead_paths(raw, flags, i + 1)
    } else {
        0
    }
}

/// The command line after rewriting: leading tools-list paths get `scan`
/// (one path) or `multi` (two or more) in front of them; anything else is
/// left as it is.
pub open spec fn preprocessed(raw: Seq<Seq<char>>, flags: Seq<bool>) -> Seq<Seq<char>> {
    if raw.len() < 2 || dashed(raw[1]) || is_subcommand(raw[1]) || lead_paths(raw, flags, 1) == 0 {
        raw
    } else {
        let sub = if lead_paths(raw, flags, 1) >= 2 {
            "multi"@
        } else {
            "scan"@
        };
        seq![raw[0], sub] + raw.skip(1)
    }
}

/// Rewrites argv into subcommand form: `tools.json` becomes
/// `scan tools.json`, `a.json b.json` becomes `multi a.json b.json`.
/// `is_file[i]` tells whether `raw[i]` names an existing file.
pub fn preprocess_argv(raw: Vec<String>, is_file: &[bool]) -> (r: Vec<String>)
    ensures
        strs_view(r@) == preprocessed(strs_view(raw@), is_file@),
{
    let ghost rv = strs_view(raw@);
    if raw.len() < 2 {
        return raw;
    }
    assert(rv[1] == raw@[1]@);
    let first = raw[1].as_str();
    if starts_with_dash(first) || subcommand_name(first) {
        return raw;
    }
    let n = raw.len();
    let mut i: usize = 1;
    let mut stop = false;
    while i < n && !stop
        invariant
            1 <= i <= n,
            n == raw@.len(),
            rv == strs_view(raw@),
            lead_paths(rv, is_file@, 1) == (i - 1) + (if stop { 0 } else { lead_paths(rv, is_file@, i as int) }),
        decreases n - i + (if stop { 0int } else { 1int }),
    {
        assert(rv[i as int] == raw@[i as int]@);
        let flag = i < is_file.len() && is_file[i];
        if looks_like_list_path(raw[i].as_str(), flag) {
            i = i + 1;
        } else {
            stop = true;
        }
    }
    let k = i - 1;
    assert(lead_paths(rv, is_file@, 1) == k);
    if k == 0 {
        return raw;
    }
    let mut out: Vec<String> = Vec::new();
    out.push(raw[0].clone());
    if k >= 2 {
        out.push("multi".to_owned());
    } else {
        out.push("scan".to_owned());
    }
    let ghost head = strs_view(out@);
    for j in 1..n
        invariant
            n == raw@.len(),
            rv == strs_view(raw@),
            1 <= j <= n,
            head.len() == 2,
            strs_view(out@) == head + rv.subrange(1, j as int),
    {
        let ghost o0 = out@;
        out.push(raw[j].clone());
        assert(strs_view(out@) =~= strs_view(o0).push(rv[j as int]));
        assert(strs_view(out@) =~= head + rv.subrange(1, j + 1));
    }
    assert(rv.subrange(1, n as int) =~= rv.skip(1));
    out
}

// ---------------------------------------------------------------------
// Targets and environment
// ---------------------------------------------------------------------

/// Picks the server to start: the trailing `-- prog args`, or
/// `--command` with its `--arg`s; not both.
pub fn resolve_target(command: Option<String>, args: Vec<String>, server: Vec<String>) -> (r: Result<
    (Option<String>, Vec<String>),
    CliError,
>)
    ensures
        server@.len() == 0 ==> (r matches Ok((c, a)) && c == command && a == args),
        server@.len() > 0 && (command is Some || args@.len() > 0) ==> r matches Err(CliError::BothTargets),
        server@.len() > 0 && command is None && args@.len() == 0 ==> (r matches Ok((c, a)) && c == Some(
            server@[0],
        ) && a@ == server@.skip(1)),
{
    if server.len() > 0 {
        if command.is_some() || args.len() > 0 {
            return Err(CliError::BothTargets);
        }
        let mut server = server;
        let ghost s0 = server@;
        let cmd = server.remove(0);
        assert(server@ =~= s0.skip(1));
        return Ok((Some(cmd), server));
    }
    Ok((command, args))
}

/// Position of the first `=` in `s`.
pub open spec fn eq_pos(s: Seq<char>) -> Option<int> {
    if exists|i: int| 0 <= i < s.len() && s[i] == '=' {
        Some(choose|i: int| 0 <= i < s.len() && s[i] == '=' && forall|j: int| 0 <= j < i ==> s[j] != '=')
    } else {
        None
    }
}

/// A `KEY=VALUE` pair split at its first `=`, when it has one and the key
/// is not empty.
pub open spec fn env_pair(s: Seq<char>) -> Option<(Seq<char>, Seq<char>)> {
    match eq_pos(s) {
        Some(i) => if i > 0 {
            Some((s.take(i), s.skip(i + 1)))
        } else {
            None
        },
        None => None,
    }
}

/// Splits `s` at its first `=`.
fn split_at_eq(s: &str) -> (r: Option<(String, String)>)
    ensures
        match r {
            Some((k, v)) => {
                &&& k@.len() < s@.len()
                &&& eq_pos(s@) == Some(k@.len() as int)
                &&& k@ == s@.take(k@.len() as int)
                &&& v@ == s@.skip(k@.len() as int + 1)
            },
            None => eq_pos(s@) is None,
        },
{
    let cs = chars_of(s);
    let n = cs.len();
    let mut i: usize = 0;
    while i < n
        invariant
            n == cs@.len(),
            cs@ == s@,
            i <= n,
            forall|j: int| 0 <= j < i ==> cs@[j] != '=',
        decreases n - i,
    {
        if cs[i] == '=' {
            let k = crate::text::string_from_chars(crate::text::slice_take(cs.as_slice(), i).as_slice());
            let v = crate::text::string_from_chars(crate::text::slice_skip(cs.as_slice(), i + 1).as_slice());
            proof {
                let w = choose|w: int| 0 <= w < s@.len() && s@[w] == '=' && forall|j: int| 0 <= j < w ==> s@[j] != '=';
                assert(0 <= i < s@.len() && s@[i as int] == '=' && forall|j: int| 0 <= j < i ==> s@[j] != '=');
                if w < i {
                    assert(s@[w] != '=');
                } else if w > i {
                    assert(s@[i as int] != '=');
                }
            }
            return Some((k, v));
        }
        i = i + 1;
    }
    None
}

/// Parses `--env KEY=VALUE` arguments; the first bad one is refused.
pub fn parse_env(pairs: &[String]) -> (r: Result<Vec<(String, String)>, CliError>)
    ensures
        match r {
            Ok(v) => v@.len() == pairs@.len() && forall|i: int| 0 <= i < pairs@.len() ==> env_pair(
                #[trigger] pairs@[i]@,
            ) == Some((v@[i].0@, v@[i].1@)),
            Err(e) => exists|i: int|
                0 <= i < pairs@.len() && (forall|j: int| 0 <= j < i ==> env_pair(#[trigger] pairs@[j]@) is Some)
                    && env_pair(pairs@[i]@) is None && match e {
                    CliError::EnvNotPair { arg } => arg@ == pairs@[i]@ && eq_pos(pairs@[i]@) is None,
                    CliError::EnvEmptyKey { arg } => arg@ == pairs@[i]@ && eq_pos(pairs@[i]@) == Some(0int),
                    _ => false,
                },
        },
{
    let mut out: Vec<(String, String)> = Vec::new();
    let n = pairs.len();
    for i in 0..n
        invariant
            n == pairs@.len(),
            out@.len() == i,
            forall|j: int| 0 <= j < i ==> env_pair(#[trigger] pairs@[j]@) == Some((out@[j].0@, out@[j].1@)),
    {
        let p = pairs[i].as_str();
        match split_at_eq(p) {
            None => {
                assert(env_pair(pairs@[i as int]@) is None);
                return Err(CliError::EnvNotPair { arg: p.to_owned() });
            },
            Some((k, v)) => {
                if k.unicode_len() == 0 {
                    assert(env_pair(pairs@[i as int]@) is None);
                    return Err(CliError::EnvEmptyKey { arg: p.to_owned() });
                }
                out.push((k, v));
            },
        }
    }
    Ok(out)
}

// ---------------------------------------------------------------------
// What to scan, and the exit status
// ---------------------------------------------------------------------

/// What a scan reads.
#[derive(Debug)]
pub enum ScanSource {
    /// A tools-list JSON file.
    List(String),
    /// A server started over stdio.
    Command(String),
}

/// Exactly one of a tools-list path and a server command.
pub fn pick_source(list: Option<String>, command: Option<String>) -> (r: Result<ScanSource, CliError>)
    ensures
        match (list, command) {
            (Some(p), None) => r matches Ok(ScanSource::List(q)) && q == p,
            (None, Some(c)) => r matches Ok(ScanSource::Command(d)) && d == c,
            (Some(_), Some(_)) => r matches Err(CliError::BothSources),
            (None, None) => r matches Err(CliError::NoSource),
        },
{
    match (list, command) {
        (Some(p), None) => Ok(ScanSource::List(p)),
        (None, Some(c)) => Ok(ScanSource::Command(c)),
        (Some(_), Some(_)) => Err(CliError::BothSources),
        (None, None) => Err(CliError::NoSource),
    }
}

/// The exit status for a report under `--fail-on fail_on`: 2 when some
/// finding is at least that severe, 0 otherwise.
pub fn exit_for_findings(report: &ScanReport, fail_on: &str) -> (r: Result<u8, CliError>)
    ensures
        match Severity::spec_parse(fail_on@) {
            None => r matches Err(CliError::BadThreshold { value }) && value@ == fail_on@,
            Some(t) => r == Ok::<u8, CliError>(if any_at_least(report.findings@, t) { 2u8 } else { 0u8 }),
        },
{
    match Severity::parse_threshold(fail_on) {
        None => Err(CliError::BadThreshold { value: fail_on.to_owned() }),
        Some(t) => if report.fails_threshold(t) {
            Ok(2)
        } else {
            Ok(0)
        },
    }
}

// ---------------------------------------------------------------------
// Detector catalog
// ---------------------------------------------------------------------

/// The detectors: id, technique and title.
pub open spec fn catalog() -> Seq<(Seq<char>, Seq<char>, Seq<char>)> {
    seq![
        ("D01"@, "T1"@, "Instruction override language"@),
        ("D02"@, "T1"@, "Exfil directive (secrets / network)"@),
        ("D03"@, "T3"@, "Line-jump session mandates"@),
        ("D04"@, "T4"@, "Cross-server shadow / conceal"@),
        ("D05"@, "T4"@, "Whitespace hide"@),
        ("D06"@, "T8"@, "ANSI concealment"@),
        ("D07"@, "T8"@, "Unicode bidi / zero-width"@),
        ("D08"@, "T6"@, "Param/tool name semantic exfil"@),
        ("D09"@, "T12"@, "UI truncation bait"@),
        ("D10"@, "T11"@, "Deferred sleeper trigger"@),
        ("D11"@, "T1"@, "Trusted tool name collision"@),
        ("D12"@, "T6"@, "Schema oddity"@),
        ("D20"@, "T2"@, "Tool hash rugpull"@),
        ("D21"@, "T2"@, "Server hash rugpull"@),
        ("D22"@, "T2"@, "Command/args swap"@),
        ("D23"@, "T2"@, "New tool appeared"@),
        ("D24"@, "T2"@, "Pinned tool removed"@),
    ]
}

/// The texts of catalog rows.
pub open spec fn rows_view(v: Seq<(&str, &str, &str)>) -> Seq<(Seq<char>, Seq<char>, Seq<char>)> {
    v.map_values(|t: (&str, &str, &str)| (t.0@, t.1@, t.2@))
}

/// The detector catalog.
pub fn detector_catalog() -> (r: Vec<(&'static str, &'static str, &'static str)>)
    ensures
        rows_view(r@) == catalog(),
{
    let r = vec![
        ("D01", "T1", "Instruction override language"),
        ("D02", "T1", "Exfil directive (secrets / network)"),
        ("D03", "T3", "Line-jump session mandates"),
        ("D04", "T4", "Cross-server shadow / conceal"),
        ("D05", "T4", "Whitespace hide"),
        ("D06", "T8", "ANSI concealment"),
        ("D07", "T8", "Unicode bidi / zero-width"),
        ("D08", "T6", "Param/tool name semantic exfil"),
        ("D09", "T12", "UI truncation bait"),
        ("D10", "T11", "Deferred sleeper trigger"),
        ("D11", "T1", "Trusted tool name collision"),
        ("D12", "T6", "Schema oddity"),
        ("D20", "T2", "Tool hash rugpull"),
        ("D21", "T2", "Server hash rugpull"),
        ("D22", "T2", "Command/args swap"),
        ("D23", "T2", "New tool appeared"),
        ("D24", "T2", "Pinned tool removed"),
    ];
    assert(rows_view(r@) =~= catalog());
    r
}

} // verus!
