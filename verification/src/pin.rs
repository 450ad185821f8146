//! Pinning reviewed inventories and detecting drift from the pins.
use vstd::prelude::*;
use vstd::utf8::encode_utf8;
use crate::hash::{digest_text, server_hash, server_hash_spec, sha256_hex, str_view, tool_hash, tool_hash_spec, tool_pin_map, tool_pins_spec};
use crate::json::{kv_get, kv_view, keys_sorted, assoc_insert_kv, kv_inserted};
use crate::text::{concat2, concat3, push_char, str_eq};
use crate::types::{id_text, lemma_numbered_push, numbered, sat_add, strs_view, Confidence, Evidence, Finding, FindingView, PinStore, store_wf, Severity, StringLeaf, ToolDef, ToolPins};

verus! {

/// The current time in RFC 3339 (`chrono::Utc::now`, written as its serde
/// form: `to_rfc3339_opts(SecondsFormat::AutoSi, true)`). The offset of UTC
/// is written `Z`, so the text ends with `Z`; nothing is stated of the time.
#[verifier::external_body]
pub(crate) fn now_rfc3339() -> (r: String)
    ensures
        r@.len() > 0 && r@.last() == 'Z',
{
    chrono::Utc::now().to_rfc3339_opts(chrono::SecondsFormat::AutoSi, true)
}

/// Copies of the strings of a list.
pub fn clone_strings(v: &[String]) -> (r: Vec<String>)
    ensures
        r@ == v@,
{
    let mut r: Vec<String> = Vec::new();
    let n = v.len();
    for i in 0..n
        invariant
            n == v@.len(),
            r@ == v@.take(i as int),
    {
        r.push(v[i].clone());
        assert(v@.take(i + 1) == v@.take(i as int).push(v@[i as int]));
    }
    assert(v@.take(n as int) == v@);
    r
}

/// A copy of an optional string.
pub fn clone_opt(o: &Option<String>) -> (r: Option<String>)
    ensures
        r == *o,
{
    match o {
        Some(s) => Some(s.clone()),
        None => None,
    }
}

/// Pins for an inventory: the server hash, the name-to-hash map, the launch
/// command and arguments, the server name, and the time of pinning.
pub fn make_pins(
    server_key: &str,
    tools: &[ToolDef],
    command: Option<String>,
    args: Vec<String>,
    server_name: Option<String>,
) -> (r: ToolPins)
    ensures
        r.server_hash@ == server_hash_spec(tools@),
        kv_view(r.tools@, str_view()) == tool_pins_spec(tools@),
        keys_sorted(r.tools@),
        r.command == command,
        r.args == args,
        r.server_name == server_name,
        r.pinned_at matches Some(t) && t@.len() > 0 && t@.last() == 'Z',
{
    ToolPins {
        server_hash: server_hash(tools),
        tools: tool_pin_map(tools),
        command,
        args,
        pinned_at: Some(now_rfc3339()),
        server_name,
    }
}

/// `p` pins the inventory `tools`: its server hash, its sorted map of
/// tool hashes, and a time of pinning.
pub open spec fn pins_for(p: ToolPins, tools: Seq<ToolDef>) -> bool {
    &&& p.server_hash@ == server_hash_spec(tools)
    &&& kv_view(p.tools@, str_view()) == tool_pins_spec(tools)
    &&& keys_sorted(p.tools@)
    &&& p.pinned_at matches Some(t) && t@.len() > 0 && t@.last() == 'Z'
}

/// A drift finding.
pub open spec fn pin_view(
    detector: Seq<char>,
    rule: Seq<char>,
    severity: Severity,
    tool_name: Seq<char>,
    json_path: Seq<char>,
    title: Seq<char>,
    detail: Seq<char>,
) -> FindingView {
    FindingView {
        detector,
        technique: "T2"@,
        owasp: seq!["MCP03:2025"@],
        atlas: seq!["AML.T0051"@],
        severity,
        confidence: Confidence::High,
        tool_name,
        json_path,
        title,
        detail,
        snippet: detail,
        snippet_hash: digest_text(encode_utf8(detail)),
        matched_rules: seq![rule],
        remediation: "Re-review the server metadata, re-pin only after human approval, block auto-update until verified."@,
        references: seq!["CVE-2025-54136 MCPoison class"@],
    }
}

fn pin_finding(
    id: usize,
    detector: &str,
    rule: &str,
    severity: Severity,
    tool_name: &str,
    json_path: &str,
    title: &str,
    detail: &str,
) -> (r: Finding)
    ensures
        r@ == pin_view(detector@, rule@, severity, tool_name@, json_path@, title@, detail@),
        r.id@ == id_text(id as nat),
{
    let mut owasp: Vec<String> = Vec::new();
    owasp.push("MCP03:2025".to_owned());
    let mut atlas: Vec<String> = Vec::new();
    atlas.push("AML.T0051".to_owned());
    let mut rules: Vec<String> = Vec::new();
    rules.push(rule.to_owned());
    let mut references: Vec<String> = Vec::new();
    references.push("CVE-2025-54136 MCPoison class".to_owned());
    assert(strs_view(owasp@) =~= seq!["MCP03:2025"@]);
    assert(strs_view(atlas@) =~= seq!["AML.T0051"@]);
    assert(strs_view(rules@) =~= seq![rule@]);
    assert(strs_view(references@) =~= seq!["CVE-2025-54136 MCPoison class"@]);
    Finding {
        id: crate::detectors::finding_id(id),
        detector: detector.to_owned(),
        technique: "T2".to_owned(),
        owasp,
        atlas,
        severity,
        confidence: Confidence::High,
        tool_name: tool_name.to_owned(),
        json_path: json_path.to_owned(),
        title: title.to_owned(),
        detail: detail.to_owned(),
        evidence: Evidence {
            snippet: detail.to_owned(),
            snippet_hash: sha256_hex(detail.as_bytes()),
            matched_rules: rules,
        },
        remediation: "Re-review the server metadata, re-pin only after human approval, block auto-update until verified.".to_owned(),
        references,
    }
}

/// `$.tools['name']`.
pub open spec fn named_path(name: Seq<char>) -> Seq<char> {
    "$.tools['"@ + name + "']"@
}

/// Index of the first tool named `name`, if any.
pub open spec fn first_named(ts: Seq<ToolDef>, name: Seq<char>, i: int) -> Option<int>
    decreases ts.len() - i,
{
    if i < 0 || i >= ts.len() {
        None
    } else if ts[i].name@ == name {
        Some(i)
    } else {
        first_named(ts, name, i + 1)
    }
}

/// A changed tool: the pinned and the current hash, with the evidence
/// pointing at the current hash of the first tool of that name.
pub open spec fn d20_view(ts: Seq<ToolDef>, name: Seq<char>, pinned: Seq<char>, current: Seq<char>) -> FindingView {
    let f = pin_view("D20"@, "rugpull_tool_hash"@, Severity::Critical, name, named_path(name), "Tool content hash changed (rugpull)"@, "Tool `"@ + name + "` hash "@ + pinned + " -> "@ + current);
    match first_named(ts, name, 0) {
        Some(i) => {
            let snip = "current_hash="@ + tool_hash_spec(ts[i]);
            FindingView { snippet: snip, snippet_hash: digest_text(encode_utf8(snip)), ..f }
        },
        None => f,
    }
}

/// A pinned tool that is gone.
pub open spec fn d24_view(name: Seq<char>) -> FindingView {
    pin_view("D24"@, "tool_removed"@, Severity::Medium, name, named_path(name), "Pinned tool missing from current inventory"@, "Tool `"@ + name + "` was pinned but is gone."@)
}

/// Pinned tools that vanished or changed, for the first `n` pins.
pub open spec fn pinned_findings(ts: Seq<ToolDef>, pinned: Seq<(Seq<char>, Seq<char>)>, cur: Seq<(Seq<char>, Seq<char>)>, n: int) -> Seq<FindingView>
    decreases n,
{
    if n <= 0 || n > pinned.len() {
        Seq::empty()
    } else {
        let (name, ph) = pinned[n - 1];
        pinned_findings(ts, pinned, cur, n - 1) + match kv_get(cur, name) {
            None => seq![d24_view(name)],
            Some(h) => if h != ph {
                seq![d20_view(ts, name, ph, h)]
            } else {
                Seq::empty()
            },
        }
    }
}

/// Current tools that were not pinned, for the first `n` current entries.
pub open spec fn new_tool_findings(cur: Seq<(Seq<char>, Seq<char>)>, pinned: Seq<(Seq<char>, Seq<char>)>, n: int) -> Seq<FindingView>
    decreases n,
{
    if n <= 0 || n > cur.len() {
        Seq::empty()
    } else {
        let name = cur[n - 1].0;
        new_tool_findings(cur, pinned, n - 1) + if kv_get(pinned, name) is None {
            seq![pin_view("D23"@, "new_tool_appeared"@, Severity::High, name, named_path(name), "New tool appeared since pin"@, "Tool `"@ + name + "` was not in the pin baseline."@)]
        } else {
            Seq::empty()
        }
    }
}

/// How `{:?}` writes a string slice.
pub uninterp spec fn debug_str(s: Seq<char>) -> Seq<char>;

/// `format!("{:?}", s)` on a string slice: its quoted, escaped form.
#[verifier::external_body]
fn debug_quote(s: &str) -> (r: String)
    ensures
        r@ == debug_str(s@),
{
    format!("{:?}", s)
}

/// How `{:?}` writes an optional string.
pub open spec fn debug_opt(o: Option<Seq<char>>) -> Seq<char> {
    match o {
        Some(s) => "Some("@ + debug_str(s) + ")"@,
        None => "None"@,
    }
}

/// The first `n` strings in `{:?}` form, separated by `, `.
pub open spec fn debug_items(v: Seq<Seq<char>>, n: int) -> Seq<char>
    decreases n,
{
    if n <= 0 || n > v.len() {
        Seq::empty()
    } else if n == 1 {
        debug_str(v[0])
    } else {
        debug_items(v, n - 1) + ", "@ + debug_str(v[n - 1])
    }
}

/// How `{:?}` writes a list of strings.
pub open spec fn debug_list(v: Seq<Seq<char>>) -> Seq<char> {
    "["@ + debug_items(v, v.len() as int) + "]"@
}

fn debug_opt_string(o: Option<&str>) -> (r: String)
    ensures
        r@ == debug_opt(match o { Some(s) => Some(s@), None => None }),
{
    match o {
        Some(s) => {
            let mut r = "Some(".to_owned();
            let d = debug_quote(s);
            r.append(d.as_str());
            r.append(")");
            r
        },
        None => "None".to_owned(),
    }
}

fn debug_string_list(v: &[String]) -> (r: String)
    ensures
        r@ == debug_list(strs_view(v@)),
{
    let ghost sv = strs_view(v@);
    let mut r = "[".to_owned();
    let n = v.len();
    for i in 0..n
        invariant
            n == v@.len(),
            sv == strs_view(v@),
            r@ == "["@ + debug_items(sv, i as int),
    {
        assert(sv[i as int] == v@[i as int]@);
        if i > 0 {
            r.append(", ");
        }
        let d = debug_quote(v[i].as_str());
        r.append(d.as_str());
    }
    r.append("]");
    r
}

/// The text of an optional string.
pub open spec fn opt_view(o: Option<String>) -> Option<Seq<char>> {
    match o {
        Some(s) => Some(s@),
        None => None,
    }
}

/// The launch command or its arguments changed.
pub open spec fn d22_findings(pins: ToolPins, command: Option<Seq<char>>, args: Seq<Seq<char>>) -> Seq<FindingView> {
    match (pins.command, command) {
        (Some(pc), Some(cc)) => if pc@ != cc || strs_view(pins.args@) != args {
            seq![pin_view("D22"@, "config_command_swap"@, Severity::Critical, "_config"@, "$.command"@, "MCP launch command/args changed (MCPoison-class)"@,
                "Pinned command "@ + debug_opt(opt_view(pins.command)) + " "@ + debug_list(strs_view(pins.args@)) + " vs current "@ + debug_opt(command) + " "@ + debug_list(args))]
        } else {
            Seq::empty()
        },
        _ => Seq::empty(),
    }
}

/// The drift findings of `ts` against `pins`: server hash, then each pinned
/// tool (removed or changed), then each new tool, then the launch command.
pub open spec fn drift_findings(ts: Seq<ToolDef>, pins: ToolPins, command: Option<Seq<char>>, args: Seq<Seq<char>>) -> Seq<FindingView> {
    let cur = tool_pins_spec(ts);
    let cs = server_hash_spec(ts);
    let pinned = kv_view(pins.tools@, str_view());
    (if cs != pins.server_hash@ {
        seq![pin_view("D21"@, "rugpull_server_hash"@, Severity::Critical, "_server"@, "$.server_hash"@, "Server inventory hash drift (rugpull)"@, "Pinned server_hash "@ + pins.server_hash@ + " != current "@ + cs)]
    } else {
        Seq::empty()
    }) + pinned_findings(ts, pinned, cur, pinned.len() as int) + new_tool_findings(cur, pinned, cur.len() as int) + d22_findings(pins, command, args)
}


/// Position of the last entry with key `k`.
fn kv_lookup(es: &Vec<(String, String)>, k: &str) -> (r: Option<usize>)
    ensures
        r is None <==> kv_get(kv_view(es@, str_view()), k@) is None,
        r matches Some(j) ==> j < es@.len() && kv_get(kv_view(es@, str_view()), k@) == Some(es@[j as int].1@),
{
    let ghost kvs = kv_view(es@, str_view());
    let mut n = es.len();
    assert(kvs.take(n as int) =~= kvs);
    while n > 0
        invariant
            n <= es@.len(),
            kvs == kv_view(es@, str_view()),
            kv_get(kvs, k@) == kv_get(kvs.take(n as int), k@),
        decreases n,
    {
        assert(kvs.take(n as int).last() == (es@[n - 1].0@, es@[n - 1].1@));
        assert(kvs.take(n as int).drop_last() =~= kvs.take(n - 1));
        if str_eq(es[n - 1].0.as_str(), k) {
            return Some(n - 1);
        }
        n = n - 1;
    }
    None
}

/// Index of the first tool named `name`.
fn first_tool_named(tools: &[ToolDef], name: &str) -> (r: Option<usize>)
    ensures
        match r {
            Some(i) => i < tools@.len() && first_named(tools@, name@, 0) == Some(i as int),
            None => first_named(tools@, name@, 0) is None,
        },
{
    let n = tools.len();
    let mut i: usize = 0;
    while i < n
        invariant
            n == tools@.len(),
            i <= n,
            first_named(tools@, name@, 0) == first_named(tools@, name@, i as int),
        decreases n - i,
    {
        if str_eq(tools[i].name.as_str(), name) {
            return Some(i);
        }
        i = i + 1;
    }
    None
}

/// Whether two lists hold the same strings.
fn strings_eq(a: &[String], b: &[String]) -> (r: bool)
    ensures
        r == (strs_view(a@) == strs_view(b@)),
{
    if a.len() != b.len() {
        assert(strs_view(a@).len() != strs_view(b@).len());
        return false;
    }
    let n = a.len();
    for i in 0..n
        invariant
            n == a@.len(),
            n == b@.len(),
            forall|k: int| 0 <= k < i ==> a@[k]@ == b@[k]@,
    {
        if !str_eq(a[i].as_str(), b[i].as_str()) {
            assert(strs_view(a@)[i as int] != strs_view(b@)[i as int]);
            return false;
        }
    }
    assert(strs_view(a@) =~= strs_view(b@));
    true
}

/// The text of an optional string slice.
pub open spec fn opt_str_view(o: Option<&str>) -> Option<Seq<char>> {
    match o {
        Some(s) => Some(s@),
        None => None,
    }
}

/// Compare current inventory to pins; emit drift findings (D20 to D24).
#[verifier::rlimit(40)]
pub fn diff_pins(current_tools: &[ToolDef], pins: &ToolPins, command: Option<&str>, args: &[String]) -> (r: Vec<Finding>)
    requires
        keys_sorted(pins.tools@),
    ensures
        numbered(r@, drift_findings(current_tools@, *pins, opt_str_view(command), strs_view(args@))),
{
    let ghost ts = current_tools@;
    let ghost cur = tool_pins_spec(ts);
    let ghost pinned = kv_view(pins.tools@, str_view());
    let mut findings: Vec<Finding> = Vec::new();
    let ghost mut vs: Seq<FindingView> = Seq::empty();
    let mut id: usize = 1;
    let cur_map = tool_pin_map(current_tools);
    let cur_server = server_hash(current_tools);
    if !str_eq(cur_server.as_str(), pins.server_hash.as_str()) {
        let detail = concat3(concat2("Pinned server_hash ", pins.server_hash.as_str()).as_str(), " != current ", cur_server.as_str());
        let f = pin_finding(id, "D21", "rugpull_server_hash", Severity::Critical, "_server", "$.server_hash", "Server inventory hash drift (rugpull)", detail.as_str());
        proof {
            lemma_numbered_push(findings@, vs, f);
            vs = vs.push(f@);
        }
        findings.push(f);
        id = crate::detectors::bump_id(id);
    }
    let ghost vs1 = vs;
    let n = pins.tools.len();
    for i in 0..n
        invariant
            n == pins.tools@.len(),
            pinned == kv_view(pins.tools@, str_view()),
            cur == kv_view(cur_map@, str_view()),
            ts == current_tools@,
            numbered(findings@, vs),
            id == sat_add(1, vs.len()),
            vs == vs1 + pinned_findings(ts, pinned, cur, i as int),
    {
        let name = pins.tools[i].0.as_str();
        let ph = pins.tools[i].1.as_str();
        assert(pinned[i as int] == (name@, ph@));
        let ghost before = vs;
        match kv_lookup(&cur_map, name) {
            None => {
                let path = concat3("$.tools['", name, "']");
                let detail = concat3("Tool `", name, "` was pinned but is gone.");
                let f = pin_finding(id, "D24", "tool_removed", Severity::Medium, name, path.as_str(), "Pinned tool missing from current inventory", detail.as_str());
                proof {
                    lemma_numbered_push(findings@, vs, f);
                    vs = vs.push(f@);
                }
                findings.push(f);
                id = crate::detectors::bump_id(id);
            },
            Some(j) => {
                let h = cur_map[j].1.as_str();
                if !str_eq(h, ph) {
                    let path = concat3("$.tools['", name, "']");
                    let mut detail = concat3("Tool `", name, "` hash ");
                    detail.append(ph);
                    detail.append(" -> ");
                    detail.append(h);
                    let mut f = pin_finding(id, "D20", "rugpull_tool_hash", Severity::Critical, name, path.as_str(), "Tool content hash changed (rugpull)", detail.as_str());
                    match first_tool_named(current_tools, name) {
                        Some(t) => {
                            let th = tool_hash(&current_tools[t]);
                            let snippet = concat2("current_hash=", th.as_str());
                            f.evidence.snippet_hash = sha256_hex(snippet.as_str().as_bytes());
                            f.evidence.snippet = snippet;
                        },
                        None => {},
                    }
                    assert(f@ == d20_view(ts, name@, ph@, h@));
                    proof {
                        lemma_numbered_push(findings@, vs, f);
                        vs = vs.push(f@);
                    }
                    findings.push(f);
                    id = crate::detectors::bump_id(id);
                }
            },
        }
        assert(vs =~= vs1 + pinned_findings(ts, pinned, cur, i + 1));
    }
    let ghost vs2 = vs;
    let m = cur_map.len();
    for i in 0..m
        invariant
            m == cur_map@.len(),
            pinned == kv_view(pins.tools@, str_view()),
            cur == kv_view(cur_map@, str_view()),
            numbered(findings@, vs),
            id == sat_add(1, vs.len()),
            vs == vs2 + new_tool_findings(cur, pinned, i as int),
    {
        let name = cur_map[i].0.as_str();
        assert(cur[i as int].0 == name@);
        if kv_lookup(&pins.tools, name).is_none() {
            let path = concat3("$.tools['", name, "']");
            let detail = concat3("Tool `", name, "` was not in the pin baseline.");
            let f = pin_finding(id, "D23", "new_tool_appeared", Severity::High, name, path.as_str(), "New tool appeared since pin", detail.as_str());
            proof {
                lemma_numbered_push(findings@, vs, f);
                vs = vs.push(f@);
            }
            findings.push(f);
            id = crate::detectors::bump_id(id);
        }
        assert(vs =~= vs2 + new_tool_findings(cur, pinned, i + 1));
    }
    let ghost vs3 = vs;
    if let (Some(pc), Some(cc)) = (&pins.command, command) {
        if !str_eq(pc.as_str(), cc) || !strings_eq(pins.args.as_slice(), args) {
            let mut detail = "Pinned command ".to_owned();
            let a = debug_opt_string(Some(pc.as_str()));
            detail.append(a.as_str());
            detail.append(" ");
            let b = debug_string_list(pins.args.as_slice());
            detail.append(b.as_str());
            detail.append(" vs current ");
            let c = debug_opt_string(command);
            detail.append(c.as_str());
            detail.append(" ");
            let d = debug_string_list(args);
            detail.append(d.as_str());
            let f = pin_finding(id, "D22", "config_command_swap", Severity::Critical, "_config", "$.command", "MCP launch command/args changed (MCPoison-class)", detail.as_str());
            proof {
                lemma_numbered_push(findings@, vs, f);
                vs = vs.push(f@);
            }
            findings.push(f);
        }
    }
    assert(vs =~= vs3 + d22_findings(*pins, opt_str_view(command), strs_view(args@)));
    assert(vs =~= drift_findings(ts, *pins, opt_str_view(command), strs_view(args@)));
    findings
}

/// A string leaf from its parts.
pub fn leaf(tool: &str, path: &str, value: &str) -> (r: StringLeaf)
    ensures
        r.tool_name@ == tool@,
        r.json_path@ == path@,
        r.value@ == value@,
{
    StringLeaf { tool_name: tool.to_owned(), json_path: path.to_owned(), value: value.to_owned() }
}

/// Every pin list held in `kvs` has strictly increasing tool names.
pub open spec fn pin_lists_sorted(kvs: Seq<(Seq<char>, ToolPins)>) -> bool {
    forall|t: int| 0 <= t < kvs.len() ==> keys_sorted(#[trigger] kvs[t].1.tools@)
}

proof fn lemma_pin_lists_inserted(kvs: Seq<(Seq<char>, ToolPins)>, k: Seq<char>, w: ToolPins)
    requires
        pin_lists_sorted(kvs),
        keys_sorted(w.tools@),
    ensures
        pin_lists_sorted(kv_inserted(kvs, k, w)),
{
    crate::json::lemma_kv_lower_bound_le(kvs, k);
    let j = crate::json::kv_lower_bound(kvs, k) as int;
    let m = kv_inserted(kvs, k, w);
    assert forall|t: int| 0 <= t < m.len() implies keys_sorted(#[trigger] m[t].1.tools@) by {
        if j < kvs.len() && kvs[j].0 == k {
            if t != j {
                assert(m[t] == kvs[t]);
            }
        } else if t < j {
            assert(m[t] == kvs[t]);
        } else if t > j {
            assert(m[t] == kvs[t - 1]);
        }
    }
}

/// Store `pins` under `server_key` (replacing earlier pins of that key).
pub fn upsert_pin(store: &mut PinStore, server_key: &str, pins: ToolPins)
    requires
        store_wf(*old(store)),
        keys_sorted(pins.tools@),
    ensures
        kv_view(final(store).servers@, |p: ToolPins| p) == kv_inserted(kv_view(old(store).servers@, |p: ToolPins| p), server_key@, pins),
        store_wf(*final(store)),
{
    let ghost f = |p: ToolPins| p;
    let ghost before = kv_view(store.servers@, f);
    proof {
        assert forall|t: int| 0 <= t < before.len() implies keys_sorted(#[trigger] before[t].1.tools@) by {
            assert(before[t].1 == store.servers@[t].1);
        }
        lemma_pin_lists_inserted(before, server_key@, pins);
    }
    assoc_insert_kv::<ToolPins, ToolPins>(&mut store.servers, server_key.to_owned(), pins, Ghost(|p: ToolPins| p));
    proof {
        let after = kv_view(store.servers@, f);
        assert forall|t: int| 0 <= t < store.servers@.len() implies keys_sorted(#[trigger] store.servers@[t].1.tools@) by {
            assert(after[t].1 == store.servers@[t].1);
        }
    }
}

/// An empty name-to-hash map.
pub fn empty_btreemap() -> (r: Vec<(String, String)>)
    ensures
        r@.len() == 0,
{
    Vec::new()
}


// ---------------------------------------------------------------------
// Laws of pinning
// ---------------------------------------------------------------------

proof fn lemma_pinned_clean(ts: Seq<ToolDef>, cur: Seq<(Seq<char>, Seq<char>)>, n: int)
    requires
        crate::json::kv_sorted(cur),
        0 <= n <= cur.len(),
    ensures
        pinned_findings(ts, cur, cur, n) == Seq::<FindingView>::empty(),
    decreases n,
{
    if n > 0 {
        lemma_pinned_clean(ts, cur, n - 1);
        crate::json::lemma_kv_get_at(cur, n - 1);
    }
}

proof fn lemma_new_clean(cur: Seq<(Seq<char>, Seq<char>)>, n: int)
    requires
        crate::json::kv_sorted(cur),
        0 <= n <= cur.len(),
    ensures
        new_tool_findings(cur, cur, n) == Seq::<FindingView>::empty(),
    decreases n,
{
    if n > 0 {
        lemma_new_clean(cur, n - 1);
        crate::json::lemma_kv_get_at(cur, n - 1);
    }
}

/// An inventory checked against its own pins, with the launch command and
/// arguments it was pinned with, shows no drift.
pub proof fn lemma_pin_then_check_clean(ts: Seq<ToolDef>, p: ToolPins, command: Option<Seq<char>>, args: Seq<Seq<char>>)
    requires
        pins_for(p, ts),
        command == opt_view(p.command),
        args == strs_view(p.args@),
    ensures
        drift_findings(ts, p, command, args) == Seq::<FindingView>::empty(),
{
    let cur = tool_pins_spec(ts);
    crate::json::lemma_sorted_kv(p.tools@, str_view());
    lemma_pinned_clean(ts, cur, cur.len() as int);
    lemma_new_clean(cur, cur.len() as int);
    assert(d22_findings(p, command, args) == Seq::<FindingView>::empty());
    assert(drift_findings(ts, p, command, args) =~= Seq::<FindingView>::empty());
}

proof fn lemma_pinned_reports(
    ts: Seq<ToolDef>,
    pinned: Seq<(Seq<char>, Seq<char>)>,
    cur: Seq<(Seq<char>, Seq<char>)>,
    n: int,
    i: int,
)
    requires
        0 <= i < n <= pinned.len(),
    ensures
        match kv_get(cur, pinned[i].0) {
            Some(h) => h != pinned[i].1 ==> pinned_findings(ts, pinned, cur, n).contains(
                d20_view(ts, pinned[i].0, pinned[i].1, h),
            ),
            None => pinned_findings(ts, pinned, cur, n).contains(d24_view(pinned[i].0)),
        },
    decreases n,
{
    let prev = pinned_findings(ts, pinned, cur, n - 1);
    let all = pinned_findings(ts, pinned, cur, n);
    if i < n - 1 {
        lemma_pinned_reports(ts, pinned, cur, n - 1, i);
        match kv_get(cur, pinned[i].0) {
            Some(h) => if h != pinned[i].1 {
                let k = choose|k: int| 0 <= k < prev.len() && prev[k] == d20_view(ts, pinned[i].0, pinned[i].1, h);
                assert(all[k] == prev[k]);
            },
            None => {
                let k = choose|k: int| 0 <= k < prev.len() && prev[k] == d24_view(pinned[i].0);
                assert(all[k] == prev[k]);
            },
        }
    } else {
        match kv_get(cur, pinned[i].0) {
            Some(h) => if h != pinned[i].1 {
                assert(all[prev.len() as int] == d20_view(ts, pinned[i].0, pinned[i].1, h));
            },
            None => {
                assert(all[prev.len() as int] == d24_view(pinned[i].0));
            },
        }
    }
}

/// Drift is reported for every pinned tool: a D20 finding when its hash
/// changed, a D24 finding when it is gone.
pub proof fn lemma_drift_reported(ts: Seq<ToolDef>, p: ToolPins, command: Option<Seq<char>>, args: Seq<Seq<char>>, i: int)
    requires
        0 <= i < p.tools@.len(),
    ensures
        match kv_get(tool_pins_spec(ts), p.tools@[i].0@) {
            Some(h) => h != p.tools@[i].1@ ==> drift_findings(ts, p, command, args).contains(
                d20_view(ts, p.tools@[i].0@, p.tools@[i].1@, h),
            ),
            None => drift_findings(ts, p, command, args).contains(d24_view(p.tools@[i].0@)),
        },
{
    let cur = tool_pins_spec(ts);
    let pinned = kv_view(p.tools@, str_view());
    assert(pinned[i] == (p.tools@[i].0@, p.tools@[i].1@));
    lemma_pinned_reports(ts, pinned, cur, pinned.len() as int, i);
    let head = if server_hash_spec(ts) != p.server_hash@ {
        seq![pin_view("D21"@, "rugpull_server_hash"@, Severity::Critical, "_server"@, "$.server_hash"@, "Server inventory hash drift (rugpull)"@, "Pinned server_hash "@ + p.server_hash@ + " != current "@ + server_hash_spec(ts))]
    } else {
        Seq::empty()
    };
    let mid = pinned_findings(ts, pinned, cur, pinned.len() as int);
    let all = drift_findings(ts, p, command, args);
    assert(all == head + mid + new_tool_findings(cur, pinned, cur.len() as int) + d22_findings(p, command, args));
    match kv_get(cur, pinned[i].0) {
        Some(h) => if h != pinned[i].1 {
            let k = choose|k: int| 0 <= k < mid.len() && mid[k] == d20_view(ts, pinned[i].0, pinned[i].1, h);
            assert(all[head.len() + k] == mid[k]);
        },
        None => {
            let k = choose|k: int| 0 <= k < mid.len() && mid[k] == d24_view(pinned[i].0);
            assert(all[head.len() + k] == mid[k]);
        },
    }
}

/// Pins stored under a key are what a lookup of that key gives back, and
/// storing under one key leaves every other key as it was.
pub proof fn lemma_upsert_read_back(before: PinStore, after: PinStore, key: Seq<char>, pins: ToolPins, other: Seq<char>)
    requires
        keys_sorted(before.servers@),
        keys_sorted(after.servers@),
        kv_view(after.servers@, |p: ToolPins| p) == kv_inserted(kv_view(before.servers@, |p: ToolPins| p), key, pins),
    ensures
        crate::json::assoc_get(after.servers@, key) == Some(pins),
        other != key ==> crate::json::assoc_get(after.servers@, other) == crate::json::assoc_get(before.servers@, other),
{
    let f = |p: ToolPins| p;
    crate::json::lemma_sorted_kv(before.servers@, f);
    crate::json::lemma_sorted_kv(after.servers@, f);
    crate::json::lemma_kv_insert_get(kv_view(before.servers@, f), key, pins, other);
    crate::json::lemma_assoc_get_kv(after.servers@, f, key);
    crate::json::lemma_assoc_get_kv(after.servers@, f, other);
    crate::json::lemma_assoc_get_kv(before.servers@, f, other);
}

/// When both the pins and the current launch have a command, the drift
/// report ends in one D22 finding (critical, on `$.command` of `_config`)
/// exactly when the commands differ or the pinned arguments differ from the
/// current ones; otherwise it is the report of a launch without a command.
pub proof fn lemma_launch_swap_reported(ts: Seq<ToolDef>, p: ToolPins, pc: String, cc: Seq<char>, args: Seq<Seq<char>>)
    requires
        p.command == Some(pc),
    ensures
        ({
            let with = drift_findings(ts, p, Some(cc), args);
            let without = drift_findings(ts, p, None, args);
            if pc@ != cc || strs_view(p.args@) != args {
                &&& with.len() == without.len() + 1
                &&& with.take(without.len() as int) == without
                &&& with.last().detector == "D22"@
                &&& with.last().severity == Severity::Critical
                &&& with.last().tool_name == "_config"@
                &&& with.last().json_path == "$.command"@
                &&& with.last().title == "MCP launch command/args changed (MCPoison-class)"@
            } else {
                with == without
            }
        }),
{
    let with = drift_findings(ts, p, Some(cc), args);
    let without = drift_findings(ts, p, None, args);
    assert(d22_findings(p, None, args) == Seq::<FindingView>::empty());
    if pc@ != cc || strs_view(p.args@) != args {
        assert(with.take(without.len() as int) =~= without);
    } else {
        assert(with =~= without);
    }
}

/// Some finding of `fs` is from detector `det` on tool `name` at severity `sev`.
pub open spec fn reports_on(fs: Seq<FindingView>, det: Seq<char>, name: Seq<char>, sev: Severity) -> bool {
    exists|k: int| 0 <= k < fs.len() && (#[trigger] fs[k]).detector == det && fs[k].tool_name == name && fs[k].severity == sev
}

proof fn lemma_new_tools_reported(cur: Seq<(Seq<char>, Seq<char>)>, pinned: Seq<(Seq<char>, Seq<char>)>, n: int, i: int)
    requires
        0 <= i < n <= cur.len(),
        kv_get(pinned, cur[i].0) is None,
    ensures
        reports_on(new_tool_findings(cur, pinned, n), "D23"@, cur[i].0, Severity::High),
    decreases n,
{
    let prev = new_tool_findings(cur, pinned, n - 1);
    let all = new_tool_findings(cur, pinned, n);
    if i < n - 1 {
        lemma_new_tools_reported(cur, pinned, n - 1, i);
        let k = choose|k: int| 0 <= k < prev.len() && (#[trigger] prev[k]).detector == "D23"@ && prev[k].tool_name == cur[i].0
            && prev[k].severity == Severity::High;
        assert(all[k] == prev[k]);
    } else {
        assert(all[prev.len() as int].detector == "D23"@);
    }
}

/// A current tool whose name no pin holds is reported as a new tool (D23,
/// high severity), whatever else drifted.
pub proof fn lemma_new_tool_reported(ts: Seq<ToolDef>, p: ToolPins, command: Option<Seq<char>>, args: Seq<Seq<char>>, j: int)
    requires
        0 <= j < ts.len(),
        forall|t: int| 0 <= t < p.tools@.len() ==> (#[trigger] p.tools@[t]).0@ != ts[j].name@,
    ensures
        reports_on(drift_findings(ts, p, command, args), "D23"@, ts[j].name@, Severity::High),
{
    let name = ts[j].name@;
    let cur = tool_pins_spec(ts);
    let pinned = kv_view(p.tools@, str_view());
    crate::hash::lemma_last_named(ts, name, ts.len() as int);
    crate::hash::lemma_pin_map(ts, ts.len() as int, name);
    assert(kv_get(cur, name) is Some);
    crate::json::lemma_kv_get_some(cur, name);
    let idx = choose|idx: int| 0 <= idx < cur.len() && #[trigger] cur[idx] == (name, kv_get(cur, name)->0);
    assert forall|t: int| 0 <= t < pinned.len() implies (#[trigger] pinned[t]).0 != name by {
        assert(pinned[t].0 == p.tools@[t].0@);
    }
    crate::json::lemma_kv_get_absent(pinned, name);
    lemma_new_tools_reported(cur, pinned, cur.len() as int, idx);
    let nf = new_tool_findings(cur, pinned, cur.len() as int);
    let head = if server_hash_spec(ts) != p.server_hash@ {
        seq![pin_view("D21"@, "rugpull_server_hash"@, Severity::Critical, "_server"@, "$.server_hash"@, "Server inventory hash drift (rugpull)"@, "Pinned server_hash "@ + p.server_hash@ + " != current "@ + server_hash_spec(ts))]
    } else {
        Seq::empty()
    };
    let mid = pinned_findings(ts, pinned, cur, pinned.len() as int);
    let all = drift_findings(ts, p, command, args);
    assert(all == head + mid + nf + d22_findings(p, command, args));
    let k = choose|k: int| 0 <= k < nf.len() && (#[trigger] nf[k]).detector == "D23"@ && nf[k].tool_name == name
        && nf[k].severity == Severity::High;
    assert(all[head.len() + mid.len() + k] == nf[k]);
}

/// When the current inventory's hash differs from the pinned one, the drift
/// report opens with a critical D21 finding on `$.server_hash`.
pub proof fn lemma_server_drift_reported(ts: Seq<ToolDef>, p: ToolPins, command: Option<Seq<char>>, args: Seq<Seq<char>>)
    requires
        server_hash_spec(ts) != p.server_hash@,
    ensures
        drift_findings(ts, p, command, args).len() > 0,
        drift_findings(ts, p, command, args)[0].detector == "D21"@,
        drift_findings(ts, p, command, args)[0].severity == Severity::Critical,
        drift_findings(ts, p, command, args)[0].json_path == "$.server_hash"@,
{
}

} // verus!
