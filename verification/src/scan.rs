//! Scans: one tool list, several lists together, a live server's
//! inventory, and an inventory checked against its pins.
use vstd::prelude::*;
use std::time::Duration;
use crate::client::{Framing, Inventory};
use crate::detectors::{
    cross_server_findings, detect_cross_server_shadow, finding_id, finding_views, scan_findings, scan_tools,
    StaticScanOptions,
};
use crate::json::{keys_sorted, member, JsonValue};
use crate::pin::{clone_opt, clone_strings, diff_pins, drift_findings, make_pins, opt_str_view, opt_view, pins_for};
use crate::report::{consistent, ScanReport};
use crate::text::{decimal, push_decimal, push_decimal_u64};
use crate::types::{
    id_text, numbered, sat_add, strs_view, Finding, FindingView, ProofClass, TargetInfo, ToolDef, ToolPins,
    ToolsListResult,
};

verus! {

/// Largest tools-list file accepted: bigger ones are an attack, not an inventory.
pub const MAX_LIST_BYTES: u64 = 8 * 1024 * 1024;

/// Most tools accepted in one offline list.
pub const MAX_TOOLS: usize = 5_000;

/// `std::time::Duration::from_secs`: a duration of `secs` seconds.
pub uninterp spec fn secs_duration(secs: u64) -> Duration;

/// `Duration::from_secs(secs)`.
#[verifier::external_body]
fn duration_from_secs(secs: u64) -> (r: Duration)
    ensures
        r == secs_duration(secs),
{
    Duration::from_secs(secs)
}

/// How to scan.
#[derive(Debug)]
pub struct ScanOptions {
    /// Treat the server as an untrusted third party.
    pub untrusted: bool,
    pub timeout: Duration,
    pub framing: Framing,
}

impl Default for ScanOptions {
    fn default() -> (r: ScanOptions)
        ensures
            r.untrusted,
            r.timeout == secs_duration(30),
            r.framing == Framing::Ndjson,
    {
        ScanOptions { untrusted: true, timeout: duration_from_secs(30), framing: Framing::Ndjson }
    }
}

/// Why a scan was refused.
#[derive(Debug)]
pub enum ScanError {
    /// An offline list file over `MAX_LIST_BYTES`.
    ListTooLarge { path: String, bytes: u64 },
    /// One of several list files over `MAX_LIST_BYTES`.
    MultiListTooLarge { path: String },
    /// More than `MAX_TOOLS` tools in an offline list.
    TooManyTools { count: usize },
    /// A document that holds no tool list.
    UnknownShape,
}

impl ScanError {
    /// The text of the error.
    pub open spec fn spec_message(&self) -> Seq<char> {
        match self {
            ScanError::ListTooLarge { path, bytes } => "tools list "@ + path@ + " is "@ + decimal(*bytes as nat)
                + " bytes (max 8388608)"@,
            ScanError::MultiListTooLarge { path } => "tools list "@ + path@ + " too large"@,
            ScanError::TooManyTools { count } => "tools list has "@ + decimal(*count as nat) + " tools (max 5000)"@,
            ScanError::UnknownShape => "JSON must be tools/list result, {tools:[...]}, or a bare tools array"@,
        }
    }

    /// The text of the error.
    pub fn message(&self) -> (r: String)
        ensures
            r@ == self.spec_message(),
    {
        match self {
            ScanError::ListTooLarge { path, bytes } => {
                let mut r = "tools list ".to_owned();
                r.append(path.as_str());
                r.append(" is ");
                push_decimal_u64(&mut r, *bytes);
                r.append(" bytes (max 8388608)");
                r
            },
            ScanError::MultiListTooLarge { path } => {
                let mut r = "tools list ".to_owned();
                r.append(path.as_str());
                r.append(" too large");
                r
            },
            ScanError::TooManyTools { count } => {
                let mut r = "tools list has ".to_owned();
                push_decimal(&mut r, *count);
                r.append(" tools (max 5000)");
                r
            },
            ScanError::UnknownShape => "JSON must be tools/list result, {tools:[...]}, or a bare tools array".to_owned(),
        }
    }
}

/// Refuses an offline list file of `bytes` bytes at `path` when too large.
pub fn check_list_size(path: &str, bytes: u64) -> (r: Result<(), ScanError>)
    ensures
        r is Ok <==> bytes <= MAX_LIST_BYTES,
        r is Err ==> r matches Err(ScanError::ListTooLarge { .. }),
        r matches Err(ScanError::ListTooLarge { path: p, bytes: b }) ==> p@ == path@ && b == bytes,
{
    if bytes > MAX_LIST_BYTES {
        Err(ScanError::ListTooLarge { path: path.to_owned(), bytes })
    } else {
        Ok(())
    }
}

/// Refuses one of several list files when too large.
pub fn check_multi_list_size(path: &str, bytes: u64) -> (r: Result<(), ScanError>)
    ensures
        r is Ok <==> bytes <= MAX_LIST_BYTES,
        r matches Err(ScanError::MultiListTooLarge { path: p }) ==> p@ == path@,
        r is Err ==> r matches Err(ScanError::MultiListTooLarge { .. }),
{
    if bytes > MAX_LIST_BYTES {
        Err(ScanError::MultiListTooLarge { path: path.to_owned() })
    } else {
        Ok(())
    }
}

/// Where a tools-list document keeps its tools.
#[derive(Debug, Clone, Copy, PartialEq, Eq, Structural)]
pub enum ListShape {
    /// The document is the array of tools.
    BareArray,
    /// The document is a `tools/list` result: `{"tools": [...]}`.
    ToolsObject,
    /// The document is a JSON-RPC reply: `{"result": {"tools": [...]}}`.
    ResultTools,
}

/// The shape of a tools-list document, in order of preference.
pub open spec fn shape_of(v: JsonValue) -> Option<ListShape> {
    if v is Array {
        Some(ListShape::BareArray)
    } else if member(v, "tools"@) is Some {
        Some(ListShape::ToolsObject)
    } else if (match member(v, "result"@) {
        Some(r) => member(r, "tools"@) is Some,
        None => false,
    }) {
        Some(ListShape::ResultTools)
    } else {
        None
    }
}

/// Where the tools of a document are; an error for any other document.
pub fn list_shape(value: &JsonValue) -> (r: Result<ListShape, ScanError>)
    ensures
        match shape_of(*value) {
            Some(s) => r == Ok::<ListShape, ScanError>(s),
            None => r matches Err(ScanError::UnknownShape),
        },
{
    match value {
        JsonValue::Array(_) => Ok(ListShape::BareArray),
        JsonValue::Object(es) => {
            if crate::json::member_index(es, "tools").is_some() {
                return Ok(ListShape::ToolsObject);
            }
            match crate::json::member_index(es, "result") {
                Some(i) => match &es[i].1 {
                    JsonValue::Object(inner) => {
                        if crate::json::member_index(inner, "tools").is_some() {
                            Ok(ListShape::ResultTools)
                        } else {
                            Err(ScanError::UnknownShape)
                        }
                    },
                    _ => Err(ScanError::UnknownShape),
                },
                None => Err(ScanError::UnknownShape),
            }
        },
        _ => Err(ScanError::UnknownShape),
    }
}

/// Finding ids renumbered from `F-001`, in order.
fn renumber(findings: &mut Vec<Finding>)
    ensures
        numbered(final(findings)@, finding_views(old(findings)@)),
{
    let ghost f0 = findings@;
    let n = findings.len();
    for i in 0..n
        invariant
            n == findings@.len(),
            n == f0.len(),
            forall|k: int| 0 <= k < n ==> (#[trigger] findings@[k])@ == f0[k]@,
            forall|k: int| 0 <= k < i ==> (#[trigger] findings@[k]).id@ == id_text(sat_add(1, k as nat)),
    {
        let mut f = findings.remove(i);
        f.id = finding_id(i + 1);
        findings.insert(i, f);
    }
    assert(numbered(findings@, finding_views(f0)));
}

/// The target of an offline scan of a list labelled `label`.
pub open spec fn offline_target(t: TargetInfo, label: Option<Seq<char>>) -> bool {
    &&& t.transport@ == "offline"@
    &&& opt_view(t.server_name) == label
    &&& t.server_version is None
    &&& t.command is None
    &&& t.args@.len() == 0
    &&& t.proof_class == ProofClass::Fixture
}

fn opt_owned(o: Option<&str>) -> (r: Option<String>)
    ensures
        opt_view(r) == opt_str_view(o),
{
    match o {
        Some(s) => Some(s.to_owned()),
        None => None,
    }
}

/// Scan of one offline tool list labelled `label`: refused for more than
/// `MAX_TOOLS` tools, otherwise the static findings, pins without a
/// launch command, and an offline target.
pub fn scan_tool_list(tools: Vec<ToolDef>, opts: &ScanOptions, label: Option<&str>) -> (r: Result<ScanReport, ScanError>)
    ensures
        match r {
            Err(e) => {
                &&& tools@.len() > MAX_TOOLS
                &&& e matches ScanError::TooManyTools { count } && count == tools@.len()
            },
            Ok(rep) => {
                &&& tools@.len() <= MAX_TOOLS
                &&& numbered(rep.findings@, scan_findings(tools@, opts.untrusted))
                &&& rep.tools@ == tools@
                &&& pins_for(rep.pins, tools@)
                &&& rep.pins.command is None
                &&& rep.pins.args@.len() == 0
                &&& opt_view(rep.pins.server_name) == opt_str_view(label)
                &&& offline_target(rep.target, opt_str_view(label))
                &&& consistent(rep)
            },
        },
{
    if tools.len() > MAX_TOOLS {
        return Err(ScanError::TooManyTools { count: tools.len() });
    }
    let static_opts = StaticScanOptions { untrusted: opts.untrusted };
    let findings = scan_tools(tools.as_slice(), &static_opts);
    let key = match label {
        Some(l) => l,
        None => "offline",
    };
    let pins = make_pins(key, tools.as_slice(), None, Vec::new(), opt_owned(label));
    let target = TargetInfo {
        transport: "offline".to_owned(),
        server_name: opt_owned(label),
        server_version: None,
        command: None,
        args: Vec::new(),
        proof_class: ProofClass::Fixture,
    };
    Ok(ScanReport::new(target, findings, pins, tools))
}

// ---------------------------------------------------------------------
// Several lists together
// ---------------------------------------------------------------------

/// Named tool lists as the inventories of one session.
pub open spec fn as_inventories(lists: Seq<(String, Vec<ToolDef>)>) -> Seq<(String, ToolsListResult)> {
    lists.map_values(|p: (String, Vec<ToolDef>)| (p.0, ToolsListResult { tools: p.1, next_cursor: None }))
}

/// Static findings of the first `n` lists, list after list.
pub open spec fn lists_findings(lists: Seq<(String, Vec<ToolDef>)>, untrusted: bool, n: int) -> Seq<FindingView>
    decreases n,
{
    if n <= 0 || n > lists.len() {
        Seq::empty()
    } else {
        lists_findings(lists, untrusted, n - 1) + scan_findings(lists[n - 1].1@, untrusted)
    }
}

/// The tools of the first `n` lists, in order.
pub open spec fn lists_tools(lists: Seq<(String, Vec<ToolDef>)>, n: int) -> Seq<ToolDef>
    decreases n,
{
    if n <= 0 || n > lists.len() {
        Seq::empty()
    } else {
        lists_tools(lists, n - 1) + lists[n - 1].1@
    }
}

/// Findings of a scan of several lists: each list's static findings, then
/// the cross-server findings of the session.
pub open spec fn multi_findings(lists: Seq<(String, Vec<ToolDef>)>, untrusted: bool) -> Seq<FindingView> {
    lists_findings(lists, untrusted, lists.len() as int) + cross_server_findings(as_inventories(lists))
}

/// What a scan of several lists reports: each list's static findings and
/// the cross-server findings, renumbered; all tools; pins without a launch
/// command; an offline multi-list target.
pub open spec fn multi_report(r: ScanReport, lists: Seq<(String, Vec<ToolDef>)>, untrusted: bool) -> bool {
    &&& numbered(r.findings@, multi_findings(lists, untrusted))
    &&& r.tools@ == lists_tools(lists, lists.len() as int)
    &&& pins_for(r.pins, r.tools@)
    &&& r.pins.command is None
    &&& r.pins.args@.len() == 0
    &&& opt_view(r.pins.server_name) == Some("multi"@)
    &&& r.target.transport@ == "offline-multi"@
    &&& opt_view(r.target.server_name) == Some("multi"@)
    &&& r.target.server_version is None
    &&& r.target.command is None
    &&& r.target.args@.len() == 0
    &&& r.target.proof_class == ProofClass::Fixture
    &&& consistent(r)
}

/// Index of the first list, from `i` on, with more than `MAX_TOOLS` tools.
pub open spec fn first_oversized(lists: Seq<(String, Vec<ToolDef>)>, i: int) -> Option<int>
    decreases lists.len() - i,
{
    if i < 0 || i >= lists.len() {
        None
    } else if lists[i].1@.len() > MAX_TOOLS {
        Some(i)
    } else {
        first_oversized(lists, i + 1)
    }
}

/// Scan of several named tool lists together (cross-server shadowing):
/// refused when a list holds more than `MAX_TOOLS` tools.
pub fn scan_multi_inventories(lists: Vec<(String, Vec<ToolDef>)>, opts: &ScanOptions) -> (r: Result<ScanReport, ScanError>)
    ensures
        match first_oversized(lists@, 0) {
            Some(i) => r matches Err(ScanError::TooManyTools { count }) && count == lists@[i].1@.len(),
            None => r matches Ok(rep) && multi_report(rep, lists@, opts.untrusted),
        },
{
    let n = lists.len();
    let mut k: usize = 0;
    while k < n
        invariant
            n == lists@.len(),
            k <= n,
            first_oversized(lists@, 0) == first_oversized(lists@, k as int),
        decreases n - k,
    {
        if lists[k].1.len() > MAX_TOOLS {
            return Err(ScanError::TooManyTools { count: lists[k].1.len() });
        }
        k = k + 1;
    }
    Ok(scan_lists(lists, opts))
}

/// Scan of several named tool lists together.
#[verifier::rlimit(40)]
fn scan_lists(lists: Vec<(String, Vec<ToolDef>)>, opts: &ScanOptions) -> (r: ScanReport)
    ensures
        multi_report(r, lists@, opts.untrusted),
{
    let ghost l0 = lists@;
    let ghost u = opts.untrusted;
    let static_opts = StaticScanOptions { untrusted: opts.untrusted };
    let mut lists = lists;
    let mut inventories: Vec<(String, ToolsListResult)> = Vec::new();
    let mut findings: Vec<Finding> = Vec::new();
    let n = lists.len();
    for k in 0..n
        invariant
            n == l0.len(),
            u == static_opts.untrusted,
            lists@ == l0.skip(k as int),
            inventories@ == as_inventories(l0).take(k as int),
            finding_views(findings@) == lists_findings(l0, u, k as int),
    {
        let (sid, tools) = lists.remove(0);
        assert((sid, tools) == l0[k as int]);
        let mut found = scan_tools(tools.as_slice(), &static_opts);
        let ghost before = findings@;
        let ghost got = found@;
        findings.append(&mut found);
        assert(finding_views(findings@) =~= finding_views(before) + finding_views(got));
        assert(finding_views(got) =~= scan_findings(tools@, u));
        inventories.push((sid, ToolsListResult { tools, next_cursor: None }));
        assert(inventories@ =~= as_inventories(l0).take(k + 1));
        assert(lists@ =~= l0.skip(k + 1));
    }
    assert(inventories@ =~= as_inventories(l0));
    let ghost invs = inventories@;
    let ghost before_cross = findings@;
    let mut next_id = crate::detectors::bump_id(findings.len());
    let ghost start = next_id as nat;
    detect_cross_server_shadow(inventories.as_slice(), &mut findings, &mut next_id);
    proof {
        crate::detectors::lemma_appended_views(before_cross, findings@, start, cross_server_findings(invs));
    }
    assert(finding_views(findings@) == multi_findings(l0, u));
    renumber(&mut findings);
    let mut all_tools: Vec<ToolDef> = Vec::new();
    let m = inventories.len();
    for k in 0..m
        invariant
            m == invs.len(),
            m == l0.len(),
            invs == as_inventories(l0),
            inventories@ == invs.skip(k as int),
            all_tools@ == lists_tools(l0, k as int),
    {
        let (_, inv) = inventories.remove(0);
        assert(inv == invs[k as int].1);
        let mut ts = inv.tools;
        let ghost before = all_tools@;
        let ghost got = ts@;
        all_tools.append(&mut ts);
        assert(all_tools@ =~= lists_tools(l0, k + 1));
        assert(inventories@ =~= invs.skip(k + 1));
    }
    let pins = make_pins("multi", all_tools.as_slice(), None, Vec::new(), Some("multi".to_owned()));
    let target = TargetInfo {
        transport: "offline-multi".to_owned(),
        server_name: Some("multi".to_owned()),
        server_version: None,
        command: None,
        args: Vec::new(),
        proof_class: ProofClass::Fixture,
    };
    ScanReport::new(target, findings, pins, all_tools)
}

// ---------------------------------------------------------------------
// Inventories of live servers, and pin checks
// ---------------------------------------------------------------------

/// Static scan of `tools` for `target`, with pins that record the
/// target's command, arguments and server name.
pub fn scan_tools_value(tools: Vec<ToolDef>, target: TargetInfo, opts: &ScanOptions) -> (r: ScanReport)
    ensures
        numbered(r.findings@, scan_findings(tools@, opts.untrusted)),
        r.tools@ == tools@,
        r.target == target,
        pins_for(r.pins, tools@),
        r.pins.command == target.command,
        strs_view(r.pins.args@) == strs_view(target.args@),
        r.pins.server_name == target.server_name,
        consistent(r),
{
    let static_opts = StaticScanOptions { untrusted: opts.untrusted };
    let findings = scan_tools(tools.as_slice(), &static_opts);
    let key = match &target.server_name {
        Some(n) => n.as_str(),
        None => "server",
    };
    let pins = make_pins(
        key,
        tools.as_slice(),
        clone_opt(&target.command),
        clone_strings(target.args.as_slice()),
        clone_opt(&target.server_name),
    );
    ScanReport::new(target, findings, pins, tools)
}

/// The target of a live stdio scan of `inv` started as `command args`.
pub open spec fn stdio_target(t: TargetInfo, inv: Inventory, command: Seq<char>, args: Seq<Seq<char>>) -> bool {
    &&& t.transport@ == "stdio"@
    &&& t.server_name == Some(inv.initialize.server_info.name)
    &&& t.server_version == Some(inv.initialize.server_info.version)
    &&& opt_view(t.command) == Some(command)
    &&& strs_view(t.args@) == args
    &&& t.proof_class == ProofClass::Local
}

/// Static scan of a live server's inventory, started as `command args`.
pub fn scan_inventory(inv: Inventory, command: &str, args: &[String], opts: &ScanOptions) -> (r: ScanReport)
    ensures
        numbered(r.findings@, scan_findings(inv.tools@, opts.untrusted)),
        r.tools@ == inv.tools@,
        stdio_target(r.target, inv, command@, strs_view(args@)),
        pins_for(r.pins, inv.tools@),
        r.pins.command == r.target.command,
        strs_view(r.pins.args@) == strs_view(args@),
        r.pins.server_name == r.target.server_name,
        consistent(r),
{
    let ghost inv0 = inv;
    let name = inv.initialize.server_info.name;
    let version = inv.initialize.server_info.version;
    let tools = inv.tools;
    let target = TargetInfo {
        transport: "stdio".to_owned(),
        server_name: Some(name),
        server_version: Some(version),
        command: Some(command.to_owned()),
        args: clone_strings(args),
        proof_class: crate::report::proof_class_for_transport(false, true),
    };
    scan_tools_value(tools, target, opts)
}

/// `base` with the drift findings of `tools` against `pins` appended and
/// all findings renumbered, re-pinned on `tools`.
pub fn check_against_pins(
    tools: Vec<ToolDef>,
    pins: &ToolPins,
    command: Option<&str>,
    args: &[String],
    base: ScanReport,
) -> (r: ScanReport)
    requires
        keys_sorted(pins.tools@),
    ensures
        numbered(
            r.findings@,
            finding_views(base.findings@) + drift_findings(tools@, *pins, opt_str_view(command), strs_view(args@)),
        ),
        r.tools@ == tools@,
        r.target == base.target,
        pins_for(r.pins, tools@),
        r.pins.command == base.target.command,
        strs_view(r.pins.args@) == strs_view(base.target.args@),
        r.pins.server_name == base.target.server_name,
        consistent(r),
{
    let mut findings = base.findings;
    let ghost f0 = findings@;
    let mut drift = diff_pins(tools.as_slice(), pins, command, args);
    let ghost d0 = drift@;
    findings.append(&mut drift);
    assert(finding_views(findings@) =~= finding_views(f0) + finding_views(d0));
    assert(finding_views(d0) =~= drift_findings(tools@, *pins, opt_str_view(command), strs_view(args@)));
    renumber(&mut findings);
    let target = base.target;
    let key = match &target.server_name {
        Some(n) => n.as_str(),
        None => "server",
    };
    let new_pins = make_pins(
        key,
        tools.as_slice(),
        clone_opt(&target.command),
        clone_strings(target.args.as_slice()),
        clone_opt(&target.server_name),
    );
    ScanReport::new(target, findings, new_pins, tools)
}

} // verus!
