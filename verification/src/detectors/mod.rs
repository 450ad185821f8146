//! Static detectors over tool metadata.
pub mod rules;

use vstd::prelude::*;
use vstd::utf8::encode_utf8;
use crate::hash::{digest_text, sha256_hex};
use crate::json::{canon, canonical_json, JsonValue};
use crate::normalize::{
    capped, collapse, collapse_ws, has_ansi, has_bidi_or_zw, is_bidi_or_zw, is_esc, max_run,
    max_space_run, strip_ansi, stripped, tool_pairs, tool_string_leaves, leaves_are,
};
use crate::pattern::{opt_strs_view, pattern_hit, regex_capture_group, regex_captures, regex_hit, regex_valid};
use crate::text::{
    chars_of, concat2, concat3, contains_char, decimal, decimal_string, ends_with_str, is_suffix,
    is_ws, lower, lower_chars, push_char, push_decimal, str_eq, str_views, trim, trim_end,
    trim_end_str, trim_str, first_contained, first_sub_from, has_sub, contains_chars, contains_str,
};
use crate::types::{
    appended, id_text, lemma_numbered_push, numbered, sat_add, strs_view, Confidence, Evidence, Finding, FindingView,
    Severity, StringLeaf, ToolDef, ToolsListResult,
};
use rules::{
    default_rules, is_hygiene, is_lab_canary_docs, is_lab_docs, is_security_hygiene,
    is_trusted_name, is_trusted_tool_name, rules_view, Rule, RulePack, RuleView,
};

verus! {

// ---------------------------------------------------------------------
// Building findings
// ---------------------------------------------------------------------

/// The first `max` characters of `s`, with `…` appended when cut.
pub open spec fn snippet_of(s: Seq<char>, max: nat) -> Seq<char> {
    if s.len() > max {
        s.take(max as int).push('…')
    } else {
        s
    }
}

/// A leaf by text: (tool name, path, value).
pub type LeafView = (Seq<char>, Seq<char>, Seq<char>);

/// The text of a leaf.
pub open spec fn leaf_view(l: StringLeaf) -> LeafView {
    (l.tool_name@, l.json_path@, l.value@)
}

/// A static-detector finding on a leaf.
pub open spec fn leaf_finding(
    detector: Seq<char>,
    technique: Seq<char>,
    severity: Severity,
    confidence: Confidence,
    lv: LeafView,
    title: Seq<char>,
    detail: Seq<char>,
    matched_rules: Seq<Seq<char>>,
    remediation: Seq<char>,
) -> FindingView {
    FindingView {
        detector,
        technique,
        owasp: seq!["MCP03:2025"@],
        atlas: seq!["AML.T0051"@],
        severity,
        confidence,
        tool_name: lv.0,
        json_path: lv.1,
        title,
        detail,
        snippet: snippet_of(lv.2, 400),
        snippet_hash: digest_text(encode_utf8(lv.2)),
        matched_rules,
        remediation,
        references: seq!["Invariant Labs TPA 2025-04-01"@, "CyberArk Full-Schema Poisoning 2025-05-30"@],
    }
}

/// At most `max` characters of `s`, with `…` when cut.
fn snippet_trim(s: &str, max: usize) -> (r: String)
    ensures
        r@ == snippet_of(s@, max as nat),
{
    let cs = chars_of(s);
    if cs.len() > max {
        let mut r = String::new();
        for i in 0..max
            invariant
                max < cs@.len(),
                r@ == cs@.take(i as int),
        {
            push_char(&mut r, cs[i]);
            assert(cs@.take(i + 1) == cs@.take(i as int).push(cs@[i as int]));
        }
        push_char(&mut r, '…');
        r
    } else {
        s.to_owned()
    }
}

/// A list of one string.
fn one_string(s: &str) -> (r: Vec<String>)
    ensures
        strs_view(r@) == seq![s@],
{
    let mut r: Vec<String> = Vec::new();
    r.push(s.to_owned());
    assert(strs_view(r@) =~= seq![s@]);
    r
}

/// The id text of finding `id`.
pub fn finding_id(id: usize) -> (r: String)
    ensures
        r@ == id_text(id as nat),
{
    let mut r = "F-".to_owned();
    let d = crate::text::decimal3_string(id);
    r.append(d.as_str());
    r
}

fn make_finding(
    id: usize,
    detector: &str,
    technique: &str,
    severity: Severity,
    confidence: Confidence,
    leaf: &StringLeaf,
    title: &str,
    detail: &str,
    matched_rules: Vec<String>,
    remediation: &str,
) -> (r: Finding)
    ensures
        r@ == leaf_finding(detector@, technique@, severity, confidence, leaf_view(*leaf), title@, detail@, strs_view(matched_rules@), remediation@),
        r.id@ == id_text(id as nat),
{
    let mut references: Vec<String> = Vec::new();
    references.push("Invariant Labs TPA 2025-04-01".to_owned());
    references.push("CyberArk Full-Schema Poisoning 2025-05-30".to_owned());
    assert(strs_view(references@) =~= seq!["Invariant Labs TPA 2025-04-01"@, "CyberArk Full-Schema Poisoning 2025-05-30"@]);
    let f = Finding {
        id: finding_id(id),
        detector: detector.to_owned(),
        technique: technique.to_owned(),
        owasp: one_string("MCP03:2025"),
        atlas: one_string("AML.T0051"),
        severity,
        confidence,
        tool_name: leaf.tool_name.clone(),
        json_path: leaf.json_path.clone(),
        title: title.to_owned(),
        detail: detail.to_owned(),
        evidence: Evidence {
            snippet: snippet_trim(leaf.value.as_str(), 400),
            snippet_hash: sha256_hex(leaf.value.as_str().as_bytes()),
            matched_rules,
        },
        remediation: remediation.to_owned(),
        references,
    };
    f
}

/// `n + 1`, capped at `usize::MAX`.
pub fn bump_id(n: usize) -> (r: usize)
    ensures
        r == sat_add(n as nat, 1),
{
    if n < usize::MAX {
        n + 1
    } else {
        n
    }
}

proof fn lemma_appended_push(
    prev: Seq<Finding>,
    mid: Seq<Finding>,
    start: nat,
    vs: Seq<FindingView>,
    f: Finding,
)
    requires
        appended(prev, mid, start, vs),
        f.id@ == id_text(sat_add(start, vs.len())),
    ensures
        appended(prev, mid.push(f), start, vs.push(f@)),
{
    let new = mid.push(f);
    let ws = vs.push(f@);
    assert forall|i: int| 0 <= i < prev.len() implies #[trigger] new[i] == prev[i] by {
        assert(new[i] == mid[i]);
    }
    assert forall|i: int| 0 <= i < ws.len() implies #[trigger] new[prev.len() + i]@ == ws[i]
        && new[prev.len() + i].id@ == id_text(sat_add(start, i as nat)) by {
        if i < vs.len() {
            assert(new[prev.len() + i] == mid[prev.len() + i]);
        }
    }
}

proof fn lemma_appended_empty(prev: Seq<Finding>, start: nat)
    ensures
        appended(prev, prev, start, Seq::empty()),
{
}

proof fn lemma_sat_add_assoc(a: nat, b: nat, c: nat)
    ensures
        sat_add(sat_add(a, b), c) == sat_add(a, b + c),
{
}

/// Two runs of appended findings make one.
proof fn lemma_appended_trans(
    a: Seq<Finding>,
    b: Seq<Finding>,
    c: Seq<Finding>,
    start: nat,
    vs1: Seq<FindingView>,
    vs2: Seq<FindingView>,
)
    requires
        appended(a, b, start, vs1),
        appended(b, c, sat_add(start, vs1.len()), vs2),
    ensures
        appended(a, c, start, vs1 + vs2),
{
    let vs = vs1 + vs2;
    assert forall|i: int| 0 <= i < a.len() implies #[trigger] c[i] == a[i] by {
        assert(c[i] == b[i]);
    }
    assert forall|i: int| 0 <= i < vs.len() implies #[trigger] c[a.len() + i]@ == vs[i]
        && c[a.len() + i].id@ == id_text(sat_add(start, i as nat)) by {
        if i < vs1.len() {
            assert(c[a.len() + i] == b[a.len() + i]);
        } else {
            let j = i - vs1.len();
            assert(c[b.len() + j]@ == vs2[j]);
            lemma_sat_add_assoc(start, vs1.len(), j as nat);
        }
    }
}

/// Pushes `f` as the next finding.
fn emit(findings: &mut Vec<Finding>, next_id: &mut usize, f: Finding, Ghost(start): Ghost<nat>, Ghost(old0): Ghost<Seq<Finding>>, Ghost(vs): Ghost<Seq<FindingView>>)
    requires
        appended(old0, old(findings)@, start, vs),
        *old(next_id) == sat_add(start, vs.len()),
        f.id@ == id_text(sat_add(start, vs.len())),
    ensures
        appended(old0, final(findings)@, start, vs.push(f@)),
        *final(next_id) == sat_add(start, vs.len() + 1),
{
    proof {
        lemma_appended_push(old0, findings@, start, vs, f);
    }
    findings.push(f);
    *next_id = bump_id(*next_id);
}

// ---------------------------------------------------------------------
// Rule pack
// ---------------------------------------------------------------------

/// An environment-variable identifier: after trimming, non-empty, only
/// `A-Z`, `0-9` and `_`, and holding an `_`.
pub open spec fn env_ident(s: Seq<char>) -> bool {
    let t = trim(s);
    &&& t.len() > 0
    &&& forall|i: int| 0 <= i < t.len() ==> ('A' <= #[trigger] t[i] <= 'Z' || '0' <= t[i] <= '9' || t[i] == '_')
    &&& t.contains('_')
}

fn is_env_var_identifier(s: &str) -> (r: bool)
    ensures
        r == env_ident(s@),
{
    let t = trim_str(s);
    let cs = chars_of(t.as_str());
    if cs.len() == 0 {
        return false;
    }
    let mut has_underscore = false;
    let n = cs.len();
    for i in 0..n
        invariant
            n == cs@.len(),
            cs@ == trim(s@),
            forall|k: int| 0 <= k < i ==> ('A' <= #[trigger] cs@[k] <= 'Z' || '0' <= cs@[k] <= '9' || cs@[k] == '_'),
            has_underscore == exists|k: int| 0 <= k < i && #[trigger] cs@[k] == '_',
    {
        let c = cs[i];
        if !(('A' <= c && c <= 'Z') || ('0' <= c && c <= '9') || c == '_') {
            return false;
        }
        if c == '_' {
            has_underscore = true;
            assert(cs@[i as int] == '_');
        }
    }
    has_underscore
}

/// Text that still reads as an active host exfiltration order.
pub open spec fn live_exfil(s: Seq<char>) -> bool {
    let t = lower(s);
    ||| has_sub(t, "~/.ssh"@)
    ||| has_sub(t, ".ssh/id_rsa"@)
    ||| has_sub(t, "~/.aws/credentials"@)
    ||| has_sub(t, "curl -"@)
    ||| has_sub(t, "curl http"@)
    ||| (has_sub(t, "read the file at"@) && has_sub(t, "include its full contents"@))
}

fn has_phrase(t: &[char], p: &str) -> (r: bool)
    ensures
        r == has_sub(t@, p@),
{
    let pc = chars_of(p);
    contains_chars(t, pc.as_slice())
}

/// True when text still looks like an active host exfil order (not lab docs).
fn looks_like_live_exfil_directive(s: &str) -> (r: bool)
    ensures
        r == live_exfil(s@),
{
    let t = lower_chars(s);
    let t = t.as_slice();
    has_phrase(t, "~/.ssh") || has_phrase(t, ".ssh/id_rsa") || has_phrase(t, "~/.aws/credentials")
        || has_phrase(t, "curl -") || has_phrase(t, "curl http") || (has_phrase(t, "read the file at")
        && has_phrase(t, "include its full contents"))
}

/// Some pattern matches one of the three views of a leaf.
pub open spec fn any_pattern_hits(ps: Seq<Seq<char>>, a: Seq<char>, b: Seq<char>, c: Seq<char>) -> bool {
    exists|i: int| 0 <= i < ps.len() && (regex_hit(#[trigger] ps[i], a) || regex_hit(ps[i], b) || regex_hit(ps[i], c))
}

fn rule_matches(rule: &Rule, raw: &str, collapsed: &str, stripped_collapsed: &str) -> (r: bool)
    ensures
        r == any_pattern_hits(rule@.patterns, raw@, collapsed@, stripped_collapsed@),
{
    let ghost ps = rule@.patterns;
    let n = rule.regexes.len();
    for i in 0..n
        invariant
            n == rule.regexes@.len(),
            ps == rule@.patterns,
            forall|k: int| 0 <= k < i ==> !(regex_hit(#[trigger] ps[k], raw@) || regex_hit(ps[k], collapsed@) || regex_hit(ps[k], stripped_collapsed@)),
    {
        let re = rule.regexes[i].as_str();
        assert(ps[i as int] == re@);
        if pattern_hit(re, raw) || pattern_hit(re, collapsed) || pattern_hit(re, stripped_collapsed) {
            return true;
        }
    }
    false
}

/// Whether rule `r` raises a finding on leaf `lv`, given whether one of its
/// patterns matched one of the leaf's views (`hit`): free-text rules skip
/// property-name leaves; D01/D02 skip bare environment-variable names and
/// security-hygiene copy; D01/D02/D03/D10 skip lab documentation that is not
/// also a live exfiltration order.
pub open spec fn rule_applies(r: RuleView, lv: LeafView, hit: bool) -> bool {
    let raw = lv.2;
    let collapsed = collapse(raw);
    let hyg = is_hygiene(raw) || is_hygiene(collapsed);
    let lab = is_lab_docs(raw) || is_lab_docs(collapsed);
    let d12 = r.detector == "D02"@ || r.detector == "D01"@;
    &&& hit
    &&& !is_suffix("#key"@, lv.1)
    &&& !(env_ident(raw) && d12 && !raw.contains(' '))
    &&& !(hyg && d12)
    &&& !(lab && (d12 || r.detector == "D03"@ || r.detector == "D10"@) && !live_exfil(raw))
}

/// Whether a rule raises a finding on leaf `lv`: one of its patterns matches
/// the raw, collapsed or stripped-and-collapsed text, and the filters of
/// `rule_applies` let it through.
pub open spec fn rule_fires(r: RuleView, lv: LeafView) -> bool {
    let raw = lv.2;
    rule_applies(r, lv, any_pattern_hits(r.patterns, raw, collapse(raw), collapse(stripped(raw))))
}

/// Decides whether `rule` raises a finding on `leaf`, given whether one of the
/// rule's patterns matched one of the leaf's views.
pub fn rule_applies_to_leaf(rule: &Rule, leaf: &StringLeaf, hit: bool) -> (r: bool)
    ensures
        r == rule_applies(rule@, leaf_view(*leaf), hit),
{
    if !hit {
        return false;
    }
    let raw = leaf.value.as_str();
    let collapsed = collapse_ws(raw);
    let det = rule.detector.as_str();
    let d12 = str_eq(det, "D02") || str_eq(det, "D01");
    if ends_with_str(leaf.json_path.as_str(), "#key") {
        return false;
    }
    if d12 && is_env_var_identifier(raw) && !contains_char(raw, ' ') {
        return false;
    }
    if d12 && (is_security_hygiene(raw) || is_security_hygiene(collapsed.as_str())) {
        return false;
    }
    if (d12 || str_eq(det, "D03") || str_eq(det, "D10")) && (is_lab_canary_docs(raw)
        || is_lab_canary_docs(collapsed.as_str())) && !looks_like_live_exfil_directive(raw) {
        return false;
    }
    true
}

/// The finding a rule raises on a leaf.
pub open spec fn rule_finding(r: RuleView, lv: LeafView) -> FindingView {
    leaf_finding(r.detector, r.technique, r.severity, Confidence::High, lv, r.title, r.detail, seq![r.id], r.remediation)
}

/// Findings of the first `n` rules on leaf `lv`, in rule order.
pub open spec fn regex_rule_findings(rs: Seq<RuleView>, lv: LeafView, n: int) -> Seq<FindingView>
    decreases n,
{
    if n <= 0 || n > rs.len() {
        Seq::empty()
    } else {
        regex_rule_findings(rs, lv, n - 1) + if rule_fires(rs[n - 1], lv) {
            seq![rule_finding(rs[n - 1], lv)]
        } else {
            Seq::empty()
        }
    }
}

#[verifier::rlimit(40)]
#[verifier::spinoff_prover]
fn run_regex_rules(pack: &RulePack, leaf: &StringLeaf, findings: &mut Vec<Finding>, next_id: &mut usize)
    ensures
        appended(old(findings)@, final(findings)@, *old(next_id) as nat, regex_rule_findings(rules_view(pack.rules@), leaf_view(*leaf), pack.rules@.len() as int)),
        *final(next_id) == sat_add(*old(next_id) as nat, regex_rule_findings(rules_view(pack.rules@), leaf_view(*leaf), pack.rules@.len() as int).len()),
{
    let ghost rs = rules_view(pack.rules@);
    let ghost lv = leaf_view(*leaf);
    let ghost start = *next_id as nat;
    let ghost old0 = findings@;
    let raw = leaf.value.as_str();
    let collapsed = collapse_ws(raw);
    let stripped_s = strip_ansi(raw);
    let stripped_collapsed = collapse_ws(stripped_s.as_str());
    proof {
        lemma_appended_empty(old0, start);
    }
    let n = pack.rules.len();
    for i in 0..n
        invariant
            n == pack.rules@.len(),
            rs == rules_view(pack.rules@),
            lv == leaf_view(*leaf),
            raw@ == lv.2,
            collapsed@ == collapse(raw@),
            stripped_collapsed@ == collapse(stripped(raw@)),
            appended(old0, findings@, start, regex_rule_findings(rs, lv, i as int)),
            *next_id == sat_add(start, regex_rule_findings(rs, lv, i as int).len()),
    {
        let rule = &pack.rules[i];
        assert(rs[i as int] == rule@);
        let det = rule.detector.as_str();
        let hit = rule_matches(rule, raw, collapsed.as_str(), stripped_collapsed.as_str());
        let fires = rule_applies_to_leaf(rule, leaf, hit);
        if fires {
        let f = make_finding(
            *next_id,
            det,
            rule.technique.as_str(),
            rule.severity,
            Confidence::High,
            leaf,
            rule.title.as_str(),
            rule.detail.as_str(),
            one_string(rule.id.as_str()),
            rule.remediation.as_str(),
        );
        emit(findings, next_id, f, Ghost(start), Ghost(old0), Ghost(regex_rule_findings(rs, lv, i as int)));
        }
    }
}

// ---------------------------------------------------------------------
// Concealment
// ---------------------------------------------------------------------

/// Byte length of the UTF-8 text of `v` (`str::len`).
pub open spec fn utf8_len(v: Seq<char>) -> usize {
    encode_utf8(v).len() as usize
}

/// `v` holds an escape character.
pub open spec fn has_esc_char(v: Seq<char>) -> bool {
    exists|i: int| 0 <= i < v.len() && is_esc(#[trigger] v[i])
}

/// `v` holds a bidi, zero-width or tag character.
pub open spec fn has_bidi(v: Seq<char>) -> bool {
    exists|i: int| 0 <= i < v.len() && is_bidi_or_zw(#[trigger] v[i])
}

/// Instruction-like words after whitespace padding.
pub open spec fn pad_pattern() -> Seq<char> {
    r"(?i)(do not|ignore|must|forward|send|read\s+~|curl|tool)"@
}

/// Agent-directed phrases late in a long string.
pub open spec fn late_pattern() -> Seq<char> {
    r"(?i)(ignore\s+previous|system\s+instruction|do not tell the user|do not include this instruction|forward all|~\/\.ssh|include its full contents)"@
}

/// A run of at least 80 spaces, more than 20 further bytes, and
/// instruction-like words in the trimmed, collapsed text.
pub open spec fn d05_fires(v: Seq<char>) -> bool {
    &&& max_run(v) >= 80
    &&& utf8_len(v) > max_run(v) + 20
    &&& regex_hit(pad_pattern(), collapse(trim_end(v)))
}

/// More than 500 characters, not hygiene or lab copy, and an agent-directed
/// phrase in the last 300 characters.
pub open spec fn d09_fires(v: Seq<char>) -> bool {
    &&& v.len() > 500
    &&& !(is_hygiene(v) || is_lab_docs(v))
    &&& regex_hit(late_pattern(), v.skip(v.len() - 300))
}

/// The detail text of a whitespace-padding finding.
pub open spec fn d05_detail(run: nat) -> Seq<char> {
    "Found a run of "@ + decimal(run) + " spaces followed by instruction-like content (UI fold / cross-server hide pattern)."@
}

/// Concealment findings on a leaf: ANSI escapes, invisible characters,
/// whitespace padding, late payloads, in that order.
pub open spec fn concealment_findings(lv: LeafView) -> Seq<FindingView> {
    let v = lv.2;
    (if has_esc_char(v) { seq![leaf_finding("D06"@, "T8"@, Severity::High, Confidence::High, lv, "ANSI escape concealment in schema string"@, "Schema field contains ANSI CSI/OSC sequences that can hide text from human UIs while remaining visible to the model."@, seq!["ansi_conceal"@], "Strip ANSI from all tool metadata; reject servers that emit escape sequences in schema fields."@)] } else { Seq::empty() })
    + (if has_bidi(v) { seq![leaf_finding("D07"@, "T8"@, Severity::Medium, Confidence::High, lv, "Bidirectional or zero-width characters in schema string"@, "Bidi controls, zero-width, or tag characters can smuggle instructions past human review."@, seq!["unicode_smuggle"@], "Normalize and reject invisible Unicode in tool metadata."@)] } else { Seq::empty() })
    + (if d05_fires(v) { seq![leaf_finding("D05"@, "T4"@, Severity::Medium, Confidence::Medium, lv, "Whitespace padding before instruction-like text"@, d05_detail(max_run(v)), seq!["whitespace_hide"@], "Reject descriptions with extreme whitespace padding; show full raw metadata in review UIs."@)] } else { Seq::empty() })
    + (if d09_fires(v) { seq![leaf_finding("D09"@, "T12"@, Severity::Medium, Confidence::Medium, lv, "Long schema string with late instruction-like payload"@, "Long description may be truncated in host UIs; instruction-like content appears near the end."@, seq!["ui_truncation_bait"@], "Require full raw description review with no truncation; pin hashes after review."@)] } else { Seq::empty() })
}

/// The last 300 characters of `s`, which has more than 300.
fn tail_300(s: &str) -> (r: String)
    requires
        s@.len() > 300,
    ensures
        r@ == s@.skip(s@.len() - 300),
{
    let cs = chars_of(s);
    let t = crate::text::slice_skip(cs.as_slice(), cs.len() - 300);
    crate::text::string_from_chars(t.as_slice())
}

#[verifier::rlimit(40)]
fn detect_concealment(leaf: &StringLeaf, findings: &mut Vec<Finding>, next_id: &mut usize)
    ensures
        appended(old(findings)@, final(findings)@, *old(next_id) as nat, concealment_findings(leaf_view(*leaf))),
        *final(next_id) == sat_add(*old(next_id) as nat, concealment_findings(leaf_view(*leaf)).len()),
{
    let ghost lv = leaf_view(*leaf);
    let ghost v = lv.2;
    let ghost start = *next_id as nat;
    let ghost old0 = findings@;
    let ghost mut vs: Seq<FindingView> = Seq::empty();
    proof {
        lemma_appended_empty(old0, start);
    }
    let value = leaf.value.as_str();
    if has_ansi(value) {
        let f = make_finding(*next_id, "D06", "T8", Severity::High, Confidence::High, leaf, "ANSI escape concealment in schema string", "Schema field contains ANSI CSI/OSC sequences that can hide text from human UIs while remaining visible to the model.", one_string("ansi_conceal"), "Strip ANSI from all tool metadata; reject servers that emit escape sequences in schema fields.");
        emit(findings, next_id, f, Ghost(start), Ghost(old0), Ghost(vs));
        proof {
            vs = vs.push(f@);
        }
    }
    assert(vs =~= (if has_esc_char(v) { seq![leaf_finding("D06"@, "T8"@, Severity::High, Confidence::High, lv, "ANSI escape concealment in schema string"@, "Schema field contains ANSI CSI/OSC sequences that can hide text from human UIs while remaining visible to the model."@, seq!["ansi_conceal"@], "Strip ANSI from all tool metadata; reject servers that emit escape sequences in schema fields."@)] } else { Seq::empty() }));
    let ghost vs1 = vs;
    if has_bidi_or_zw(value) {
        let f = make_finding(*next_id, "D07", "T8", Severity::Medium, Confidence::High, leaf, "Bidirectional or zero-width characters in schema string", "Bidi controls, zero-width, or tag characters can smuggle instructions past human review.", one_string("unicode_smuggle"), "Normalize and reject invisible Unicode in tool metadata.");
        emit(findings, next_id, f, Ghost(start), Ghost(old0), Ghost(vs));
        proof {
            vs = vs.push(f@);
        }
    }
    assert(vs =~= vs1 + (if has_bidi(v) { seq![leaf_finding("D07"@, "T8"@, Severity::Medium, Confidence::High, lv, "Bidirectional or zero-width characters in schema string"@, "Bidi controls, zero-width, or tag characters can smuggle instructions past human review."@, seq!["unicode_smuggle"@], "Normalize and reject invisible Unicode in tool metadata."@)] } else { Seq::empty() }));
    let ghost vs2 = vs;
    let run = max_space_run(value);
    let blen = value.len();
    if run >= 80 && blen > run && blen - run > 20 {
        let trimmed = trim_end_str(value);
        let collapsed = collapse_ws(trimmed.as_str());
        if pattern_hit(r"(?i)(do not|ignore|must|forward|send|read\s+~|curl|tool)", collapsed.as_str()) {
            let mut detail = "Found a run of ".to_owned();
            push_decimal(&mut detail, run);
            detail.append(" spaces followed by instruction-like content (UI fold / cross-server hide pattern).");
            let f = make_finding(*next_id, "D05", "T4", Severity::Medium, Confidence::Medium, leaf, "Whitespace padding before instruction-like text", detail.as_str(), one_string("whitespace_hide"), "Reject descriptions with extreme whitespace padding; show full raw metadata in review UIs.");
            emit(findings, next_id, f, Ghost(start), Ghost(old0), Ghost(vs));
            proof {
                vs = vs.push(f@);
            }
        }
    }
    assert(vs =~= vs2 + (if d05_fires(v) { seq![leaf_finding("D05"@, "T4"@, Severity::Medium, Confidence::Medium, lv, "Whitespace padding before instruction-like text"@, d05_detail(max_run(v)), seq!["whitespace_hide"@], "Reject descriptions with extreme whitespace padding; show full raw metadata in review UIs."@)] } else { Seq::empty() }));
    let ghost vs3 = vs;
    if value.unicode_len() > 500 {
        if !(is_security_hygiene(value) || is_lab_canary_docs(value)) {
            let tail = tail_300(value);
            if pattern_hit(r"(?i)(ignore\s+previous|system\s+instruction|do not tell the user|do not include this instruction|forward all|~\/\.ssh|include its full contents)", tail.as_str()) {
                let f = make_finding(*next_id, "D09", "T12", Severity::Medium, Confidence::Medium, leaf, "Long schema string with late instruction-like payload", "Long description may be truncated in host UIs; instruction-like content appears near the end.", one_string("ui_truncation_bait"), "Require full raw description review with no truncation; pin hashes after review.");
                emit(findings, next_id, f, Ghost(start), Ghost(old0), Ghost(vs));
                proof {
                    vs = vs.push(f@);
                }
            }
        }
    }
    assert(vs =~= vs3 + (if d09_fires(v) { seq![leaf_finding("D09"@, "T12"@, Severity::Medium, Confidence::Medium, lv, "Long schema string with late instruction-like payload"@, "Long description may be truncated in host UIs; instruction-like content appears near the end."@, seq!["ui_truncation_bait"@], "Require full raw description review with no truncation; pin hashes after review."@)] } else { Seq::empty() }));
    assert(vs =~= concealment_findings(lv));
}

// ---------------------------------------------------------------------
// Parameter semantics
// ---------------------------------------------------------------------

/// Identifier fragments that steer a model to secrets.
pub open spec fn param_patterns() -> Seq<Seq<char>> {
    seq!["id_rsa"@, "aws_credential"@, "content_from_reading"@, "dot_ssh"@, ".ssh"@, ".env"@, "private_key_path"@, "read_secret"@, "exfil"@]
}

/// Why each fragment of `param_patterns` is suspicious.
pub open spec fn param_reasons() -> Seq<Seq<char>> {
    seq!["SSH private key path semantics"@, "AWS credentials semantics"@, "exfil-oriented parameter naming"@, "SSH path semantics in identifier"@, "SSH path semantics"@, "env file semantics"@, "private key path semantics"@, "secret-read semantics"@, "exfil naming"@]
}

fn param_pattern_list() -> (r: Vec<&'static str>)
    ensures
        str_views(r@) == param_patterns(),
{
    let mut r: Vec<&'static str> = Vec::new();
    r.push("id_rsa");
    r.push("aws_credential");
    r.push("content_from_reading");
    r.push("dot_ssh");
    r.push(".ssh");
    r.push(".env");
    r.push("private_key_path");
    r.push("read_secret");
    r.push("exfil");
    assert(str_views(r@) =~= param_patterns());
    r
}

fn param_reason_list() -> (r: Vec<&'static str>)
    ensures
        str_views(r@) == param_reasons(),
{
    let mut r: Vec<&'static str> = Vec::new();
    r.push("SSH private key path semantics");
    r.push("AWS credentials semantics");
    r.push("exfil-oriented parameter naming");
    r.push("SSH path semantics in identifier");
    r.push("SSH path semantics");
    r.push("env file semantics");
    r.push("private key path semantics");
    r.push("secret-read semantics");
    r.push("exfil naming");
    assert(str_views(r@) =~= param_reasons());
    r
}

/// The detail text of a parameter-semantics finding.
pub open spec fn d08_detail(name: Seq<char>, pat: Seq<char>, why: Seq<char>) -> Seq<char> {
    "Identifier `"@ + name + "` matches semantic-exfil pattern `"@ + pat + "` ("@ + why + "). Models may treat names as instructions."@
}

/// On a property-name or `.name` leaf, the first suspicious fragment found
/// in the lower-cased identifier raises one finding.
pub open spec fn param_findings(lv: LeafView) -> Seq<FindingView> {
    let is_key = is_suffix("#key"@, lv.1) || is_suffix(".name"@, lv.1);
    let name = lower(lv.2);
    let j = first_sub_from(name, param_patterns(), 0);
    if is_key && 0 <= j < param_patterns().len() {
        seq![leaf_finding("D08"@, "T6"@, Severity::High, Confidence::High, lv, "Parameter or tool name suggests secret exfiltration"@, d08_detail(name, param_patterns()[j], param_reasons()[j]), seq!["param_semantic:"@ + param_patterns()[j]], "Rename parameters to neutral domain terms; never encode secret paths in identifiers."@)]
    } else {
        Seq::empty()
    }
}



#[verifier::rlimit(40)]
fn detect_param_semantic(leaf: &StringLeaf, findings: &mut Vec<Finding>, next_id: &mut usize)
    ensures
        appended(old(findings)@, final(findings)@, *old(next_id) as nat, param_findings(leaf_view(*leaf))),
        *final(next_id) == sat_add(*old(next_id) as nat, param_findings(leaf_view(*leaf)).len()),
{
    let ghost lv = leaf_view(*leaf);
    let ghost start = *next_id as nat;
    let ghost old0 = findings@;
    proof {
        lemma_appended_empty(old0, start);
    }
    let path = leaf.json_path.as_str();
    let is_key = ends_with_str(path, "#key") || ends_with_str(path, ".name");
    if !is_key {
        return;
    }
    let name = lower_chars(leaf.value.as_str());
    let pats = param_pattern_list();
    let whys = param_reason_list();
    let j = first_contained(name.as_slice(), &pats);
    assert(param_patterns().len() == 9 && param_reasons().len() == 9);
    assert(str_views(pats@).len() == pats@.len() && str_views(whys@).len() == whys@.len());
    if j < pats.len() {
        let pat = pats[j];
        let why = whys[j];
        assert(pat@ == str_views(pats@)[j as int]);
        assert(why@ == str_views(whys@)[j as int]);
        let name_s = crate::text::string_from_chars(name.as_slice());
        let mut detail = "Identifier `".to_owned();
        detail.append(name_s.as_str());
        detail.append("` matches semantic-exfil pattern `");
        detail.append(pat);
        detail.append("` (");
        detail.append(why);
        detail.append("). Models may treat names as instructions.");
        let rule = concat2("param_semantic:", pat);
        let f = make_finding(*next_id, "D08", "T6", Severity::High, Confidence::High, leaf, "Parameter or tool name suggests secret exfiltration", detail.as_str(), one_string(rule.as_str()), "Rename parameters to neutral domain terms; never encode secret paths in identifiers.");
        emit(findings, next_id, f, Ghost(start), Ghost(old0), Ghost(Seq::empty()));
        assert(seq![f@] =~= Seq::<FindingView>::empty().push(f@));
    }
}

// ---------------------------------------------------------------------
// Whole-inventory checks
// ---------------------------------------------------------------------

/// `$.tools[i].name`.
pub open spec fn tool_name_path(i: nat) -> Seq<char> {
    crate::normalize::tool_base(i) + ".name"@
}

/// `$.tools[i].inputSchema`.
pub open spec fn tool_schema_path(i: nat) -> Seq<char> {
    crate::normalize::tool_base(i) + ".inputSchema"@
}

/// Name-collision findings of the first `n` tools.
pub open spec fn trusted_findings(tools: Seq<ToolDef>, n: int) -> Seq<FindingView>
    decreases n,
{
    if n <= 0 || n > tools.len() {
        Seq::empty()
    } else {
        let name = tools[n - 1].name@;
        trusted_findings(tools, n - 1) + (if is_trusted_name(name) { seq![leaf_finding("D11"@, "T1"@, Severity::High, Confidence::Medium, (name, tool_name_path((n - 1) as nat), name), "Tool name collides with high-trust host tool"@, "Untrusted server exposes a tool name that matches common host/agent tools; risk of shadowing or user confusion."@, seq!["trusted_name_collision"@], "Namespace third-party tools; block collisions with host tool names."@)] } else { Seq::empty() })
    }
}

/// An untrusted server whose tool is named like a host tool.
pub open spec fn collision_findings(tools: Seq<ToolDef>, untrusted: bool) -> Seq<FindingView> {
    if untrusted {
        trusted_findings(tools, tools.len() as int)
    } else {
        Seq::empty()
    }
}

fn tool_path(idx: usize, suffix: &str) -> (r: String)
    ensures
        r@ == crate::normalize::tool_base(idx as nat) + suffix@,
{
    let mut r = "$.tools[".to_owned();
    push_decimal(&mut r, idx);
    r.append("]");
    r.append(suffix);
    r
}

#[verifier::rlimit(40)]
fn detect_trusted_collision(tools: &[ToolDef], findings: &mut Vec<Finding>, next_id: &mut usize, untrusted: bool)
    ensures
        appended(old(findings)@, final(findings)@, *old(next_id) as nat, collision_findings(tools@, untrusted)),
        *final(next_id) == sat_add(*old(next_id) as nat, collision_findings(tools@, untrusted).len()),
{
    let ghost start = *next_id as nat;
    let ghost old0 = findings@;
    proof {
        lemma_appended_empty(old0, start);
    }
    if !untrusted {
        return;
    }
    let n = tools.len();
    for idx in 0..n
        invariant
            n == tools@.len(),
            appended(old0, findings@, start, trusted_findings(tools@, idx as int)),
            *next_id == sat_add(start, trusted_findings(tools@, idx as int).len()),
    {
        let tool = &tools[idx];
        if is_trusted_tool_name(tool.name.as_str()) {
            let leaf = StringLeaf {
                tool_name: tool.name.clone(),
                json_path: tool_path(idx, ".name"),
                value: tool.name.clone(),
            };
            let f = make_finding(*next_id, "D11", "T1", Severity::High, Confidence::Medium, &leaf, "Tool name collides with high-trust host tool", "Untrusted server exposes a tool name that matches common host/agent tools; risk of shadowing or user confusion.", one_string("trusted_name_collision"), "Namespace third-party tools; block collisions with host tool names.");
            assert(trusted_findings(tools@, idx + 1) == trusted_findings(tools@, idx as int).push(f@));
            emit(findings, next_id, f, Ghost(start), Ghost(old0), Ghost(trusted_findings(tools@, idx as int)));
        } else {
            assert(trusted_findings(tools@, idx + 1) =~= trusted_findings(tools@, idx as int));
        }
    }
}

/// The value is a JSON object.
pub open spec fn is_object(v: JsonValue) -> bool {
    v is Object
}

/// The value is JSON `null`.
pub open spec fn is_null(v: JsonValue) -> bool {
    v is Null
}

/// `<schema N bytes>`.
pub open spec fn size_note(n: nat) -> Seq<char> {
    "<schema "@ + decimal(n) + " bytes>"@
}

/// Schema-shape findings of one tool's input schema.
pub open spec fn schema_findings(tool: ToolDef, idx: nat) -> Seq<FindingView> {
    match tool.input_schema {
        Some(schema) => {
            let text = canon(schema);
            let path = tool_schema_path(idx);
            (if !is_object(schema) && !is_null(schema) { seq![leaf_finding("D12"@, "T6"@, Severity::Low, Confidence::High, (tool.name@, path, text), "inputSchema is not a JSON object"@, "Unexpected inputSchema shape may confuse clients or hide payload fields."@, seq!["schema_oddity:not_object"@], "Require JSON Schema object for inputSchema."@)] } else { Seq::empty() })
            + (if utf8_len(text) > 100_000 { seq![leaf_finding("D12"@, "T6"@, Severity::Medium, Confidence::High, (tool.name@, path, size_note(utf8_len(text) as nat)), "Extremely large inputSchema"@, "Oversized schema can hide payloads or stress clients."@, seq!["schema_oddity:huge"@], "Bound schema size; review oversized tools manually."@)] } else { Seq::empty() })
        },
        None => Seq::empty(),
    }
}

/// Schema-shape findings of the first `n` tools.
pub open spec fn oddity_findings(tools: Seq<ToolDef>, n: int) -> Seq<FindingView>
    decreases n,
{
    if n <= 0 || n > tools.len() {
        Seq::empty()
    } else {
        oddity_findings(tools, n - 1) + schema_findings(tools[n - 1], (n - 1) as nat)
    }
}

#[verifier::rlimit(40)]
fn detect_schema_oddity(tools: &[ToolDef], findings: &mut Vec<Finding>, next_id: &mut usize)
    ensures
        appended(old(findings)@, final(findings)@, *old(next_id) as nat, oddity_findings(tools@, tools@.len() as int)),
        *final(next_id) == sat_add(*old(next_id) as nat, oddity_findings(tools@, tools@.len() as int).len()),
{
    let ghost start = *next_id as nat;
    let ghost old0 = findings@;
    proof {
        lemma_appended_empty(old0, start);
    }
    let n = tools.len();
    for idx in 0..n
        invariant
            n == tools@.len(),
            appended(old0, findings@, start, oddity_findings(tools@, idx as int)),
            *next_id == sat_add(start, oddity_findings(tools@, idx as int).len()),
    {
        let tool = &tools[idx];
        let ghost vs0 = oddity_findings(tools@, idx as int);
        let ghost mut vs = vs0;
        if let Some(schema) = &tool.input_schema {
            let serialized = canonical_json(schema);
            let odd = match schema {
                JsonValue::Object(_) => false,
                JsonValue::Null => false,
                _ => true,
            };
            if odd {
                let leaf = StringLeaf {
                    tool_name: tool.name.clone(),
                    json_path: tool_path(idx, ".inputSchema"),
                    value: serialized.clone(),
                };
                let f = make_finding(*next_id, "D12", "T6", Severity::Low, Confidence::High, &leaf, "inputSchema is not a JSON object", "Unexpected inputSchema shape may confuse clients or hide payload fields.", one_string("schema_oddity:not_object"), "Require JSON Schema object for inputSchema.");
                emit(findings, next_id, f, Ghost(start), Ghost(old0), Ghost(vs));
                proof {
                    vs = vs.push(f@);
                }
            }
            let ghost vs1 = vs;
            let size = serialized.as_str().len();
            if size > 100_000 {
                let mut note = "<schema ".to_owned();
                push_decimal(&mut note, size);
                note.append(" bytes>");
                let leaf = StringLeaf {
                    tool_name: tool.name.clone(),
                    json_path: tool_path(idx, ".inputSchema"),
                    value: note,
                };
                let f = make_finding(*next_id, "D12", "T6", Severity::Medium, Confidence::High, &leaf, "Extremely large inputSchema", "Oversized schema can hide payloads or stress clients.", one_string("schema_oddity:huge"), "Bound schema size; review oversized tools manually.");
                emit(findings, next_id, f, Ghost(start), Ghost(old0), Ghost(vs));
                proof {
                    vs = vs.push(f@);
                }
            }
            assert(vs =~= vs0 + schema_findings(*tool, idx as nat));
        } else {
            assert(vs =~= vs0 + schema_findings(*tool, idx as nat));
        }
        assert(oddity_findings(tools@, idx + 1) == vs0 + schema_findings(tools@[idx as int], idx as nat));
    }
}




// ---------------------------------------------------------------------
// Deduplication and the full scan
// ---------------------------------------------------------------------

/// Texts joined by commas.
pub open spec fn join_comma(rs: Seq<Seq<char>>) -> Seq<char>
    decreases rs.len(),
{
    if rs.len() == 0 {
        Seq::empty()
    } else if rs.len() == 1 {
        rs[0]
    } else {
        join_comma(rs.drop_last()) + seq![','] + rs.last()
    }
}

/// What makes two findings the same: detector, tool, path and rules.
pub open spec fn dedupe_key(f: FindingView) -> (Seq<char>, Seq<char>, Seq<char>, Seq<char>) {
    (f.detector, f.tool_name, f.json_path, join_comma(f.matched_rules))
}

/// The first `n` findings without repeats: a finding whose key was already
/// kept is dropped.
pub open spec fn dedupe_views(vs: Seq<FindingView>, n: int) -> Seq<FindingView>
    decreases n,
{
    if n <= 0 || n > vs.len() {
        Seq::empty()
    } else {
        let d = dedupe_views(vs, n - 1);
        if exists|k: int| 0 <= k < d.len() && dedupe_key(#[trigger] d[k]) == dedupe_key(vs[n - 1]) {
            d
        } else {
            d.push(vs[n - 1])
        }
    }
}

proof fn lemma_dedupe(vs: Seq<FindingView>, n: int)
    requires
        0 <= n <= vs.len(),
    ensures
        forall|a: int, b: int|
            0 <= a < b < dedupe_views(vs, n).len() ==> dedupe_key(#[trigger] dedupe_views(vs, n)[a])
                != dedupe_key(#[trigger] dedupe_views(vs, n)[b]),
        forall|i: int|
            0 <= i < n ==> exists|k: int|
                0 <= k < dedupe_views(vs, n).len() && dedupe_key(#[trigger] dedupe_views(vs, n)[k]) == dedupe_key(
                    #[trigger] vs[i],
                ),
    decreases n,
{
    if n > 0 {
        lemma_dedupe(vs, n - 1);
        let d = dedupe_views(vs, n - 1);
        let e = dedupe_views(vs, n);
        if exists|k: int| 0 <= k < d.len() && dedupe_key(#[trigger] d[k]) == dedupe_key(vs[n - 1]) {
            assert(e == d);
        } else {
            assert(e == d.push(vs[n - 1]));
            assert forall|a: int, b: int| 0 <= a < b < e.len() implies dedupe_key(#[trigger] e[a]) != dedupe_key(
                #[trigger] e[b],
            ) by {
                if b < d.len() {
                    assert(e[a] == d[a] && e[b] == d[b]);
                } else {
                    assert(e[a] == d[a]);
                }
            }
            assert forall|i: int| 0 <= i < n implies exists|k: int|
                0 <= k < e.len() && dedupe_key(#[trigger] e[k]) == dedupe_key(#[trigger] vs[i]) by {
                if i < n - 1 {
                    let k = choose|k: int| 0 <= k < d.len() && dedupe_key(#[trigger] d[k]) == dedupe_key(vs[i]);
                    assert(e[k] == d[k]);
                } else {
                    assert(e[d.len() as int] == vs[n - 1]);
                }
            }
        }
    }
}

/// Views of a list of findings.
pub open spec fn finding_views(fs: Seq<Finding>) -> Seq<FindingView> {
    fs.map_values(|f: Finding| f@)
}

/// Findings appended after `prev` have the views `vs`.
pub proof fn lemma_appended_views(prev: Seq<Finding>, new: Seq<Finding>, start: nat, vs: Seq<FindingView>)
    requires
        appended(prev, new, start, vs),
    ensures
        finding_views(new) == finding_views(prev) + vs,
{
    assert forall|i: int| 0 <= i < new.len() implies #[trigger] finding_views(new)[i] == (finding_views(prev) + vs)[i] by {
        if i < prev.len() {
            assert(new[i] == prev[i]);
        } else {
            assert(new[prev.len() + (i - prev.len())]@ == vs[i - prev.len()]);
        }
    }
    assert(finding_views(new) =~= finding_views(prev) + vs);
}

fn join_rules(rs: &Vec<String>) -> (r: String)
    ensures
        r@ == join_comma(strs_view(rs@)),
{
    let mut r = String::new();
    let n = rs.len();
    for i in 0..n
        invariant
            n == rs@.len(),
            r@ == join_comma(strs_view(rs@).take(i as int)),
    {
        assert(strs_view(rs@).take(i + 1).drop_last() =~= strs_view(rs@).take(i as int));
        if i > 0 {
            push_char(&mut r, ',');
        }
        r.append(rs[i].as_str());
        assert(strs_view(rs@).take(i + 1).last() == rs@[i as int]@);
        if i == 0 {
            assert(strs_view(rs@).take(0) =~= Seq::<Seq<char>>::empty());
        }
    }
    assert(strs_view(rs@).take(n as int) =~= strs_view(rs@));
    r
}

/// The dedupe key of a finding.
fn key_of(f: &Finding) -> (r: (String, String, String, String))
    ensures
        (r.0@, r.1@, r.2@, r.3@) == dedupe_key(f@),
{
    (f.detector.clone(), f.tool_name.clone(), f.json_path.clone(), join_rules(&f.evidence.matched_rules))
}

fn key_seen(seen: &Vec<(String, String, String, String)>, k: &(String, String, String, String)) -> (r: bool)
    ensures
        r == exists|j: int| 0 <= j < seen@.len() && (#[trigger] seen@[j].0@, seen@[j].1@, seen@[j].2@, seen@[j].3@) == (k.0@, k.1@, k.2@, k.3@),
{
    let n = seen.len();
    for j in 0..n
        invariant
            n == seen@.len(),
            forall|m: int| 0 <= m < j ==> (#[trigger] seen@[m].0@, seen@[m].1@, seen@[m].2@, seen@[m].3@) != (k.0@, k.1@, k.2@, k.3@),
    {
        let e = &seen[j];
        if str_eq(e.0.as_str(), k.0.as_str()) && str_eq(e.1.as_str(), k.1.as_str()) && str_eq(e.2.as_str(), k.2.as_str()) && str_eq(e.3.as_str(), k.3.as_str()) {
            return true;
        }
    }
    false
}

/// Drop repeated findings (same detector, tool, path and rules) and number
/// the rest from 1.
#[verifier::rlimit(40)]
pub fn dedupe_findings(findings: Vec<Finding>) -> (r: Vec<Finding>)
    ensures
        numbered(r@, dedupe_views(finding_views(findings@), findings@.len() as int)),
{
    let ghost vs = finding_views(findings@);
    let mut seen: Vec<(String, String, String, String)> = Vec::new();
    let mut out: Vec<Finding> = Vec::new();
    let n = findings.len();
    let mut i: usize = 0;
    let mut src = findings;
    let ghost all = src@;
    // Move the findings over in reverse order, then take them back out front to back.
    let mut rest: Vec<Finding> = Vec::new();
    while src.len() > 0
        invariant
            n == all.len(),
            src@.len() <= n,
            src@ =~= all.subrange(0, src@.len() as int),
            rest@ =~= all.subrange(src@.len() as int, n as int).reverse(),
        decreases src@.len(),
    {
        let x = src.pop().unwrap();
        rest.push(x);
    }
    while i < n
        invariant
            n == all.len(),
            vs == finding_views(all),
            i <= n,
            rest@ =~= all.subrange(i as int, n as int).reverse(),
            seen@.len() == out@.len(),
            forall|k: int| 0 <= k < out@.len() ==> (#[trigger] seen@[k].0@, seen@[k].1@, seen@[k].2@, seen@[k].3@) == dedupe_key(out@[k]@),
            numbered(out@, dedupe_views(vs, i as int)),
            out@.len() <= i,
        decreases n - i,
    {
        let f = rest.pop().unwrap();
        assert(f == all[i as int]);
        assert(f@ == vs[i as int]);
        let ghost d = dedupe_views(vs, i as int);
        let k = key_of(&f);
        let dup = key_seen(&seen, &k);
        if dup {
            proof {
                let j = choose|j: int| 0 <= j < seen@.len() && (#[trigger] seen@[j].0@, seen@[j].1@, seen@[j].2@, seen@[j].3@) == (k.0@, k.1@, k.2@, k.3@);
                assert(dedupe_key(d[j]) == dedupe_key(vs[i as int]));
            }
        } else {
            proof {
                assert forall|j: int| 0 <= j < d.len() implies dedupe_key(#[trigger] d[j]) != dedupe_key(vs[i as int]) by {
                    assert(dedupe_key(out@[j]@) == (seen@[j].0@, seen@[j].1@, seen@[j].2@, seen@[j].3@));
                }
            }
            let mut f = f;
            f.id = finding_id(out.len() + 1);
            let ghost old_out = out@;
            let ghost old_seen = seen@;
            let ghost g = f;
            out.push(f);
            seen.push(k);
            assert forall|m: int| 0 <= m < out@.len() implies (#[trigger] seen@[m].0@, seen@[m].1@, seen@[m].2@, seen@[m].3@) == dedupe_key(out@[m]@) by {
                if m < old_out.len() {
                    assert(out@[m] == old_out[m] && seen@[m] == old_seen[m]);
                }
            }
            assert(numbered(out@, dedupe_views(vs, i + 1))) by {
                assert(dedupe_views(vs, i + 1) == d.push(vs[i as int]));
                lemma_numbered_push(old_out, d, g);
                assert(out@ == old_out.push(g));
            }
        }
        i = i + 1;
    }
    out
}

/// Options of a static scan.
pub struct StaticScanOptions {
    /// Treat server as untrusted third-party (enables D11 collisions).
    pub untrusted: bool,
}

impl Default for StaticScanOptions {
    fn default() -> (r: Self)
        ensures
            r.untrusted,
    {
        Self { untrusted: true }
    }
}

/// All findings on one leaf, before deduplication: the rule pack, then
/// concealment, then parameter semantics.
pub open spec fn leaf_findings(rs: Seq<RuleView>, lv: LeafView) -> Seq<FindingView> {
    regex_rule_findings(rs, lv, rs.len() as int) + concealment_findings(lv) + param_findings(lv)
}

/// Findings on the first `n` leaves of a tool named `name`.
pub open spec fn pairs_findings(rs: Seq<RuleView>, name: Seq<char>, ps: Seq<(Seq<char>, Seq<char>)>, n: int) -> Seq<FindingView>
    decreases n,
{
    if n <= 0 || n > ps.len() {
        Seq::empty()
    } else {
        pairs_findings(rs, name, ps, n - 1) + leaf_findings(rs, (name, ps[n - 1].0, ps[n - 1].1))
    }
}

/// Leaf findings of the first `n` tools.
pub open spec fn tools_findings(rs: Seq<RuleView>, tools: Seq<ToolDef>, n: int) -> Seq<FindingView>
    decreases n,
{
    if n <= 0 || n > tools.len() {
        Seq::empty()
    } else {
        let ps = capped(tool_pairs(tools[n - 1], (n - 1) as nat));
        tools_findings(rs, tools, n - 1) + pairs_findings(rs, tools[n - 1].name@, ps, ps.len() as int)
    }
}

/// Every finding of a static scan before deduplication.
pub open spec fn raw_findings(tools: Seq<ToolDef>, untrusted: bool) -> Seq<FindingView> {
    tools_findings(default_rules(), tools, tools.len() as int) + collision_findings(tools, untrusted)
        + oddity_findings(tools, tools.len() as int)
}

/// The findings of a static scan of `tools`.
pub open spec fn scan_findings(tools: Seq<ToolDef>, untrusted: bool) -> Seq<FindingView> {
    let raw = raw_findings(tools, untrusted);
    dedupe_views(raw, raw.len() as int)
}

/// All leaf detectors on one leaf.
fn scan_leaf(pack: &RulePack, leaf: &StringLeaf, findings: &mut Vec<Finding>, next_id: &mut usize)
    ensures
        finding_views(final(findings)@) == finding_views(old(findings)@) + leaf_findings(rules_view(pack.rules@), leaf_view(*leaf)),
{
    let ghost rs = rules_view(pack.rules@);
    let ghost f0 = findings@;
    let ghost f0_id = *next_id as nat;
    run_regex_rules(pack, leaf, findings, next_id);
    proof {
        lemma_appended_views(f0, findings@, f0_id, regex_rule_findings(rs, leaf_view(*leaf), rs.len() as int));
    }
    let ghost f1 = findings@;
    let ghost f1_id = *next_id as nat;
    detect_concealment(leaf, findings, next_id);
    proof {
        lemma_appended_views(f1, findings@, f1_id, concealment_findings(leaf_view(*leaf)));
    }
    let ghost f2 = findings@;
    let ghost f2_id = *next_id as nat;
    detect_param_semantic(leaf, findings, next_id);
    proof {
        lemma_appended_views(f2, findings@, f2_id, param_findings(leaf_view(*leaf)));
    }
    assert(finding_views(findings@) =~= finding_views(f0) + leaf_findings(rs, leaf_view(*leaf)));
}

/// Run full static analysis on one tools inventory.
#[verifier::rlimit(40)]
pub fn scan_tools(tools: &[ToolDef], opts: &StaticScanOptions) -> (r: Vec<Finding>)
    ensures
        numbered(r@, scan_findings(tools@, opts.untrusted)),
{
    let pack = RulePack::default_pack();
    let ghost rs = rules_view(pack.rules@);
    let mut findings: Vec<Finding> = Vec::new();
    let mut next_id: usize = 1;
    let n = tools.len();
    assert(finding_views(findings@) =~= Seq::empty());
    for idx in 0..n
        invariant
            n == tools@.len(),
            rs == rules_view(pack.rules@),
            rs == default_rules(),
            finding_views(findings@) == tools_findings(rs, tools@, idx as int),
    {
        let tool = &tools[idx];
        let leaves = tool_string_leaves(tool, idx);
        let ghost ps = capped(tool_pairs(*tool, idx as nat));
        let ghost before = finding_views(findings@);
        let m = leaves.len();
        for j in 0..m
            invariant
                m == leaves@.len(),
                rs == rules_view(pack.rules@),
                leaves_are(leaves@, tool.name@, ps),
                finding_views(findings@) == before + pairs_findings(rs, tool.name@, ps, j as int),
        {
            let leaf = &leaves[j];
            assert(leaf_view(*leaf) == (tool.name@, ps[j as int].0, ps[j as int].1));
            scan_leaf(&pack, leaf, &mut findings, &mut next_id);
            assert(finding_views(findings@) =~= before + pairs_findings(rs, tool.name@, ps, j + 1));
        }
        assert(finding_views(findings@) =~= tools_findings(rs, tools@, idx + 1));
    }
    let ghost f3 = findings@;
            let ghost f3_id = next_id as nat;
    detect_trusted_collision(tools, &mut findings, &mut next_id, opts.untrusted);
    proof {
        lemma_appended_views(f3, findings@, f3_id, collision_findings(tools@, opts.untrusted));
    }
    let ghost f4 = findings@;
            let ghost f4_id = next_id as nat;
    detect_schema_oddity(tools, &mut findings, &mut next_id);
    proof {
        lemma_appended_views(f4, findings@, f4_id, oddity_findings(tools@, tools@.len() as int));
    }
    assert(finding_views(findings@) =~= raw_findings(tools@, opts.untrusted));
    dedupe_findings(findings)
}


// ---------------------------------------------------------------------
// Cross-server shadowing
// ---------------------------------------------------------------------

/// Mentions such as "use the send_mail tool": capture group 3 is the name.
pub open spec fn mention_pattern() -> Seq<char> {
    r#"(?i)\b(use|call|invoke|via|with)\s+(the\s+)?['"]?([a-zA-Z][a-zA-Z0-9_\-]{2,})['"]?\s*(tool)?"#@
}

fn mention_regex() -> (r: &'static str)
    ensures
        r@ == mention_pattern(),
{
    r#"(?i)\b(use|call|invoke|via|with)\s+(the\s+)?['"]?([a-zA-Z][a-zA-Z0-9_\-]{2,})['"]?\s*(tool)?"#
}

/// The names of the tools of one inventory, in order.
pub open spec fn server_names(inv: ToolsListResult) -> Seq<Seq<char>> {
    inv.tools@.map_values(|t: ToolDef| t.name@)
}

/// The tool names of the first `n` inventories, server after server.
pub open spec fn global_names(invs: Seq<(String, ToolsListResult)>, n: int) -> Seq<Seq<char>>
    decreases n,
{
    if n <= 0 || n > invs.len() {
        Seq::empty()
    } else {
        global_names(invs, n - 1) + server_names(invs[n - 1].1)
    }
}

/// `$.servers['<sid>'].tools[<idx>].description`.
pub open spec fn server_desc_path(sid: Seq<char>, idx: nat) -> Seq<char> {
    "$.servers['"@ + sid + "'].tools["@ + decimal(idx) + "].description"@
}

/// The tool names that a description mentions, one per match (`""` where
/// the name group took no part).
pub open spec fn mention_texts(desc: Seq<char>) -> Seq<Seq<char>> {
    if regex_valid(mention_pattern()) {
        regex_captures(mention_pattern(), desc, 3).map_values(
            |o: Option<Seq<char>>|
                match o {
                    Some(t) => t,
                    None => Seq::empty(),
                },
        )
    } else {
        Seq::empty()
    }
}

/// A description that names a tool found only on another server.
pub open spec fn mention_finding(sid: Seq<char>, name: Seq<char>, m: Seq<char>, lv: LeafView) -> FindingView {
    leaf_finding(
        "D04"@,
        "T4"@,
        Severity::High,
        Confidence::Medium,
        lv,
        "Cross-server tool reference in description"@,
        "Server `"@ + sid + "` tool `"@ + name + "` mentions tool `"@ + m
            + "` which exists only on another server in this config (cross-server shadowing pattern)."@,
        seq!["cross_server_shadow"@],
        "Isolate MCP servers; scan multi-server sessions; reject descriptions that steer other servers' tools."@,
    )
}

/// Findings for the first `k` mentions `ms`: a mention counts when it is
/// non-empty, not a local tool, and a tool of some server.
pub open spec fn mention_findings(
    ms: Seq<Seq<char>>,
    local: Seq<Seq<char>>,
    global: Seq<Seq<char>>,
    sid: Seq<char>,
    name: Seq<char>,
    lv: LeafView,
    k: int,
) -> Seq<FindingView>
    decreases k,
{
    if k <= 0 || k > ms.len() {
        Seq::empty()
    } else {
        let m = ms[k - 1];
        mention_findings(ms, local, global, sid, name, lv, k - 1) + (if m.len() > 0 && !local.contains(m)
            && global.contains(m) {
            seq![mention_finding(sid, name, m, lv)]
        } else {
            Seq::empty()
        })
    }
}

/// The first name of `global`, from index `j` on, that is not local, is at
/// least six bytes long and occurs in `desc`.
pub open spec fn first_foreign(global: Seq<Seq<char>>, local: Seq<Seq<char>>, desc: Seq<char>, j: int) -> Option<int>
    decreases global.len() - j,
{
    if j < 0 || j >= global.len() {
        None
    } else if !local.contains(global[j]) && has_sub(desc, global[j]) && utf8_len(global[j]) >= 6 {
        Some(j)
    } else {
        first_foreign(global, local, desc, j + 1)
    }
}

/// Concealment wording: "do not" in the collapsed, lower-cased text.
pub open spec fn conceals(desc: Seq<char>) -> bool {
    has_sub(lower(collapse(desc)), "do not"@)
}

/// A description naming a foreign tool in concealment wording.
pub open spec fn conceal_finding(other: Seq<char>, lv: LeafView) -> FindingView {
    leaf_finding(
        "D04"@,
        "T4"@,
        Severity::High,
        Confidence::Medium,
        lv,
        "Cross-server name + concealment phrasing"@,
        "Description mentions foreign tool `"@ + other + "` and concealment language."@,
        seq!["cross_server_shadow:conceal"@],
        "Reject multi-server shadow patterns; pin and review all servers in a session together."@,
    )
}

/// Findings on the description of tool `idx` of server `sid`.
pub open spec fn tool_shadow_findings(
    sid: Seq<char>,
    local: Seq<Seq<char>>,
    global: Seq<Seq<char>>,
    tool: ToolDef,
    idx: nat,
) -> Seq<FindingView> {
    match tool.description {
        None => Seq::empty(),
        Some(d) => {
            let desc = d@;
            let lv = (tool.name@, server_desc_path(sid, idx), desc);
            let ms = mention_texts(desc);
            mention_findings(ms, local, global, sid, tool.name@, lv, ms.len() as int) + (if conceals(desc) {
                match first_foreign(global, local, desc, 0) {
                    Some(j) => seq![conceal_finding(global[j], lv)],
                    None => Seq::empty(),
                }
            } else {
                Seq::empty()
            })
        },
    }
}

/// Findings on the first `n` tools of server `sid`.
pub open spec fn server_shadow_findings(
    sid: Seq<char>,
    tools: Seq<ToolDef>,
    local: Seq<Seq<char>>,
    global: Seq<Seq<char>>,
    n: int,
) -> Seq<FindingView>
    decreases n,
{
    if n <= 0 || n > tools.len() {
        Seq::empty()
    } else {
        server_shadow_findings(sid, tools, local, global, n - 1) + tool_shadow_findings(
            sid,
            local,
            global,
            tools[n - 1],
            (n - 1) as nat,
        )
    }
}

/// Findings on the first `n` servers, against all tool names `global`.
pub open spec fn shadow_findings(invs: Seq<(String, ToolsListResult)>, global: Seq<Seq<char>>, n: int) -> Seq<FindingView>
    decreases n,
{
    if n <= 0 || n > invs.len() {
        Seq::empty()
    } else {
        let inv = invs[n - 1];
        shadow_findings(invs, global, n - 1) + server_shadow_findings(
            inv.0@,
            inv.1.tools@,
            server_names(inv.1),
            global,
            inv.1.tools@.len() as int,
        )
    }
}

/// What cross-server analysis reports for a session of servers: nothing
/// for fewer than two.
pub open spec fn cross_server_findings(invs: Seq<(String, ToolsListResult)>) -> Seq<FindingView> {
    if invs.len() < 2 {
        Seq::empty()
    } else {
        shadow_findings(invs, global_names(invs, invs.len() as int), invs.len() as int)
    }
}

/// The tool names of an inventory.
fn tool_names(inv: &ToolsListResult) -> (r: Vec<String>)
    ensures
        strs_view(r@) == server_names(*inv),
{
    let mut r: Vec<String> = Vec::new();
    let n = inv.tools.len();
    for i in 0..n
        invariant
            n == inv.tools@.len(),
            strs_view(r@) == server_names(*inv).take(i as int),
    {
        let nm = inv.tools[i].name.clone();
        assert(nm@ == server_names(*inv)[i as int]);
        let ghost r0 = r@;
        r.push(nm);
        assert(strs_view(r@) =~= strs_view(r0).push(nm@));
        assert(strs_view(r@) =~= server_names(*inv).take(i + 1));
    }
    assert(server_names(*inv).take(n as int) =~= server_names(*inv));
    r
}

/// Whether `s` is one of `names`.
fn has_name(names: &Vec<String>, s: &str) -> (r: bool)
    ensures
        r == strs_view(names@).contains(s@),
{
    let n = names.len();
    for i in 0..n
        invariant
            n == names@.len(),
            forall|k: int| 0 <= k < i ==> (#[trigger] names@[k])@ != s@,
    {
        if str_eq(names[i].as_str(), s) {
            assert(strs_view(names@)[i as int] == s@);
            return true;
        }
    }
    assert(!strs_view(names@).contains(s@)) by {
        assert forall|k: int| 0 <= k < n implies #[trigger] strs_view(names@)[k] != s@ by {
            assert(strs_view(names@)[k] == names@[k]@);
        }
    }
    false
}

fn desc_path(sid: &str, idx: usize) -> (r: String)
    ensures
        r@ == server_desc_path(sid@, idx as nat),
{
    let mut r = concat2("$.servers['", sid);
    r.append("'].tools[");
    push_decimal(&mut r, idx);
    r.append("].description");
    r
}

/// The mentioned names in `desc`.
fn mentions_in(desc: &str) -> (r: Vec<String>)
    ensures
        strs_view(r@) == mention_texts(desc@),
{
    let mut r: Vec<String> = Vec::new();
    match regex_capture_group(mention_regex(), desc, 3) {
        None => {
            assert(strs_view(r@) =~= mention_texts(desc@));
        },
        Some(caps) => {
            let ghost want = mention_texts(desc@);
            let n = caps.len();
            for i in 0..n
                invariant
                    n == caps@.len(),
                    opt_strs_view(caps@) == regex_captures(mention_pattern(), desc@, 3),
                    regex_valid(mention_pattern()),
                    want == mention_texts(desc@),
                    strs_view(r@) == want.take(i as int),
            {
                let t = match &caps[i] {
                    Some(x) => x.clone(),
                    None => String::new(),
                };
                assert(opt_strs_view(caps@)[i as int] == regex_captures(mention_pattern(), desc@, 3)[i as int]);
                assert(t@ == want[i as int]);
                let ghost r0 = r@;
                r.push(t);
                assert(strs_view(r@) =~= strs_view(r0).push(t@));
                assert(strs_view(r@) =~= want.take(i + 1));
            }
            assert(want.take(n as int) =~= want);
        },
    }
    r
}

/// Index in `global` of the first foreign name found in `desc`.
fn first_foreign_name(global: &Vec<String>, local: &Vec<String>, desc: &str) -> (r: Option<usize>)
    ensures
        match r {
            Some(j) => j < global@.len() && first_foreign(strs_view(global@), strs_view(local@), desc@, 0)
                == Some(j as int),
            None => first_foreign(strs_view(global@), strs_view(local@), desc@, 0) is None,
        },
{
    let ghost g = strs_view(global@);
    let ghost l = strs_view(local@);
    let n = global.len();
    let mut j: usize = 0;
    while j < n
        invariant
            n == global@.len(),
            g == strs_view(global@),
            l == strs_view(local@),
            j <= n,
            first_foreign(g, l, desc@, 0) == first_foreign(g, l, desc@, j as int),
        decreases n - j,
    {
        let o = global[j].as_str();
        assert(g[j as int] == o@);
        if !has_name(local, o) && contains_str(desc, o) && o.len() >= 6 {
            return Some(j);
        }
        j = j + 1;
    }
    None
}

/// Shadowing findings on the description of one tool.
#[verifier::rlimit(40)]
fn shadow_on_tool(
    sid: &str,
    local: &Vec<String>,
    global: &Vec<String>,
    tool: &ToolDef,
    idx: usize,
    findings: &mut Vec<Finding>,
    next_id: &mut usize,
)
    ensures
        appended(
            old(findings)@,
            final(findings)@,
            *old(next_id) as nat,
            tool_shadow_findings(sid@, strs_view(local@), strs_view(global@), *tool, idx as nat),
        ),
        *final(next_id) == sat_add(
            *old(next_id) as nat,
            tool_shadow_findings(sid@, strs_view(local@), strs_view(global@), *tool, idx as nat).len(),
        ),
{
    let ghost start = *next_id as nat;
    let ghost old0 = findings@;
    let ghost l = strs_view(local@);
    let ghost g = strs_view(global@);
    proof {
        lemma_appended_empty(old0, start);
    }
    match &tool.description {
        None => {},
        Some(d) => {
            let desc = d.as_str();
            let leaf = StringLeaf { tool_name: tool.name.clone(), json_path: desc_path(sid, idx), value: d.clone() };
            let ghost lv = leaf_view(leaf);
            assert(lv == (tool.name@, server_desc_path(sid@, idx as nat), desc@));
            let ms = mentions_in(desc);
            let ghost msv = strs_view(ms@);
            let nm = ms.len();
            for k in 0..nm
                invariant
                    nm == ms@.len(),
                    msv == strs_view(ms@),
                    l == strs_view(local@),
                    g == strs_view(global@),
                    lv == leaf_view(leaf),
                    appended(old0, findings@, start, mention_findings(msv, l, g, sid@, tool.name@, lv, k as int)),
                    *next_id == sat_add(start, mention_findings(msv, l, g, sid@, tool.name@, lv, k as int).len()),
            {
                let m = ms[k].as_str();
                assert(msv[k as int] == m@);
                let ghost vs = mention_findings(msv, l, g, sid@, tool.name@, lv, k as int);
                if m.unicode_len() > 0 && !has_name(local, m) && has_name(global, m) {
                    let mut detail = concat3("Server `", sid, "` tool `");
                    detail.append(tool.name.as_str());
                    detail.append("` mentions tool `");
                    detail.append(m);
                    detail.append(
                        "` which exists only on another server in this config (cross-server shadowing pattern).",
                    );
                    let f = make_finding(
                        *next_id,
                        "D04",
                        "T4",
                        Severity::High,
                        Confidence::Medium,
                        &leaf,
                        "Cross-server tool reference in description",
                        detail.as_str(),
                        one_string("cross_server_shadow"),
                        "Isolate MCP servers; scan multi-server sessions; reject descriptions that steer other servers' tools.",
                    );
                    assert(f@ == mention_finding(sid@, tool.name@, m@, lv));
                    assert(mention_findings(msv, l, g, sid@, tool.name@, lv, k + 1) == vs.push(f@));
                    emit(findings, next_id, f, Ghost(start), Ghost(old0), Ghost(vs));
                } else {
                    assert(mention_findings(msv, l, g, sid@, tool.name@, lv, k + 1) =~= vs);
                }
            }
            let ghost vs = mention_findings(msv, l, g, sid@, tool.name@, lv, nm as int);
            let folded = collapse_ws(desc);
            let lowered = lower_chars(folded.as_str());
            if has_phrase(lowered.as_slice(), "do not") {
                match first_foreign_name(global, local, desc) {
                    Some(j) => {
                        let other = global[j].as_str();
                        assert(g[j as int] == other@);
                        let detail = concat3("Description mentions foreign tool `", other, "` and concealment language.");
                        let f = make_finding(
                            *next_id,
                            "D04",
                            "T4",
                            Severity::High,
                            Confidence::Medium,
                            &leaf,
                            "Cross-server name + concealment phrasing",
                            detail.as_str(),
                            one_string("cross_server_shadow:conceal"),
                            "Reject multi-server shadow patterns; pin and review all servers in a session together.",
                        );
                        emit(findings, next_id, f, Ghost(start), Ghost(old0), Ghost(vs));
                    },
                    None => {
                        assert(vs + Seq::<FindingView>::empty() =~= vs);
                    },
                }
            } else {
                assert(vs + Seq::<FindingView>::empty() =~= vs);
            }
        },
    }
}

/// Cross-server: a description on one server that references tool names
/// found only on another server of the same session.
#[verifier::rlimit(40)]
pub fn detect_cross_server_shadow(
    inventories: &[(String, ToolsListResult)],
    findings: &mut Vec<Finding>,
    next_id: &mut usize,
)
    ensures
        appended(old(findings)@, final(findings)@, *old(next_id) as nat, cross_server_findings(inventories@)),
        *final(next_id) == sat_add(*old(next_id) as nat, cross_server_findings(inventories@).len()),
{
    let ghost start = *next_id as nat;
    let ghost old0 = findings@;
    proof {
        lemma_appended_empty(old0, start);
    }
    if inventories.len() < 2 {
        return;
    }
    let ni = inventories.len();
    let mut global: Vec<String> = Vec::new();
    for s in 0..ni
        invariant
            ni == inventories@.len(),
            strs_view(global@) == global_names(inventories@, s as int),
    {
        let names = tool_names(&inventories[s].1);
        let ghost before = strs_view(global@);
        let m = names.len();
        for k in 0..m
            invariant
                m == names@.len(),
                strs_view(global@) == before + strs_view(names@).take(k as int),
        {
            let nm = names[k].clone();
            assert(nm@ == strs_view(names@)[k as int]);
            let ghost g0 = global@;
            global.push(nm);
            assert(strs_view(global@) =~= strs_view(g0).push(nm@));
            assert(strs_view(global@) =~= before + strs_view(names@).take(k + 1));
        }
        assert(strs_view(names@).take(m as int) =~= strs_view(names@));
    }
    let ghost g = strs_view(global@);
    for s in 0..ni
        invariant
            ni == inventories@.len(),
            g == strs_view(global@),
            g == global_names(inventories@, ni as int),
            appended(old0, findings@, start, shadow_findings(inventories@, g, s as int)),
            *next_id == sat_add(start, shadow_findings(inventories@, g, s as int).len()),
    {
        let sid = inventories[s].0.as_str();
        let inv = &inventories[s].1;
        let local = tool_names(inv);
        let ghost before = shadow_findings(inventories@, g, s as int);
        let nt = inv.tools.len();
        for idx in 0..nt
            invariant
                nt == inv.tools@.len(),
                g == strs_view(global@),
                strs_view(local@) == server_names(*inv),
                appended(old0, findings@, start, before + server_shadow_findings(sid@, inv.tools@, strs_view(local@), g, idx as int)),
                *next_id == sat_add(start, (before + server_shadow_findings(sid@, inv.tools@, strs_view(local@), g, idx as int)).len()),
        {
            let ghost vs1 = before + server_shadow_findings(sid@, inv.tools@, strs_view(local@), g, idx as int);
            let ghost mid = findings@;
            let ghost mid_id = *next_id as nat;
            shadow_on_tool(sid, &local, &global, &inv.tools[idx], idx, findings, next_id);
            let ghost vs2 = tool_shadow_findings(sid@, strs_view(local@), g, inv.tools@[idx as int], idx as nat);
            proof {
                lemma_appended_trans(old0, mid, findings@, start, vs1, vs2);
                lemma_sat_add_assoc(start, vs1.len(), vs2.len());
            }
            assert(vs1 + vs2 =~= before + server_shadow_findings(sid@, inv.tools@, strs_view(local@), g, idx + 1));
        }
        assert(shadow_findings(inventories@, g, s + 1) =~= before + server_shadow_findings(sid@, inv.tools@, strs_view(local@), g, nt as int));
    }
}


/// A static scan never reports two findings with the same detector, tool,
/// path and rules, and each raw finding is represented by a reported one
/// with the same key.
pub proof fn lemma_scan_findings_unique(tools: Seq<ToolDef>, untrusted: bool)
    ensures
        forall|a: int, b: int|
            0 <= a < b < scan_findings(tools, untrusted).len() ==> dedupe_key(
                #[trigger] scan_findings(tools, untrusted)[a],
            ) != dedupe_key(#[trigger] scan_findings(tools, untrusted)[b]),
        forall|i: int|
            0 <= i < raw_findings(tools, untrusted).len() ==> exists|k: int|
                0 <= k < scan_findings(tools, untrusted).len() && dedupe_key(
                    #[trigger] scan_findings(tools, untrusted)[k],
                ) == dedupe_key(#[trigger] raw_findings(tools, untrusted)[i]),
{
    let raw = raw_findings(tools, untrusted);
    let r = scan_findings(tools, untrusted);
    lemma_dedupe(raw, raw.len() as int);
    assert(r == dedupe_views(raw, raw.len() as int));
    assert forall|i: int| 0 <= i < raw.len() implies exists|k: int|
        0 <= k < r.len() && dedupe_key(#[trigger] r[k]) == dedupe_key(#[trigger] raw[i]) by {
        let k = choose|k: int|
            0 <= k < r.len() && dedupe_key(#[trigger] dedupe_views(raw, raw.len() as int)[k]) == dedupe_key(raw[i]);
        assert(dedupe_key(r[k]) == dedupe_key(raw[i]));
    }
}


// ---------------------------------------------------------------------
// Trusted scans
// ---------------------------------------------------------------------

/// No finding of `vs` comes from detector `d`.
pub open spec fn none_from(vs: Seq<FindingView>, d: Seq<char>) -> bool {
    forall|i: int| 0 <= i < vs.len() ==> (#[trigger] vs[i]).detector != d
}

proof fn lemma_none_from_add(a: Seq<FindingView>, b: Seq<FindingView>, d: Seq<char>)
    requires
        none_from(a, d),
        none_from(b, d),
    ensures
        none_from(a + b, d),
{
    assert forall|i: int| 0 <= i < (a + b).len() implies (#[trigger] (a + b)[i]).detector != d by {
        if i < a.len() {
            assert((a + b)[i] == a[i]);
        } else {
            assert((a + b)[i] == b[i - a.len()]);
        }
    }
}

proof fn lemma_d11_distinct()
    ensures
        "D01"@ != "D11"@,
        "D02"@ != "D11"@,
        "D03"@ != "D11"@,
        "D04"@ != "D11"@,
        "D05"@ != "D11"@,
        "D06"@ != "D11"@,
        "D07"@ != "D11"@,
        "D08"@ != "D11"@,
        "D09"@ != "D11"@,
        "D10"@ != "D11"@,
        "D12"@ != "D11"@,
{
    reveal_strlit("D01");
    reveal_strlit("D02");
    reveal_strlit("D03");
    reveal_strlit("D04");
    reveal_strlit("D05");
    reveal_strlit("D06");
    reveal_strlit("D07");
    reveal_strlit("D08");
    reveal_strlit("D09");
    reveal_strlit("D10");
    reveal_strlit("D11");
    reveal_strlit("D12");
    assert("D01"@[1] != "D11"@[1]);
    assert("D02"@[1] != "D11"@[1]);
    assert("D03"@[1] != "D11"@[1]);
    assert("D04"@[1] != "D11"@[1]);
    assert("D05"@[1] != "D11"@[1]);
    assert("D06"@[1] != "D11"@[1]);
    assert("D07"@[1] != "D11"@[1]);
    assert("D08"@[1] != "D11"@[1]);
    assert("D09"@[1] != "D11"@[1]);
    assert("D10"@[2] != "D11"@[2]);
    assert("D12"@[2] != "D11"@[2]);
}

proof fn lemma_rules_not_d11(rs: Seq<RuleView>, lv: LeafView, n: int)
    requires
        rs == default_rules(),
        0 <= n <= rs.len(),
    ensures
        none_from(regex_rule_findings(rs, lv, n), "D11"@),
    decreases n,
{
    if n > 0 {
        lemma_rules_not_d11(rs, lv, n - 1);
        lemma_d11_distinct();
        assert(rs[n - 1].detector != "D11"@);
        let tail = if rule_fires(rs[n - 1], lv) {
            seq![rule_finding(rs[n - 1], lv)]
        } else {
            Seq::empty()
        };
        assert(none_from(tail, "D11"@));
        lemma_none_from_add(regex_rule_findings(rs, lv, n - 1), tail, "D11"@);
    }
}

proof fn lemma_leaf_not_d11(lv: LeafView)
    ensures
        none_from(leaf_findings(default_rules(), lv), "D11"@),
{
    let rs = default_rules();
    lemma_d11_distinct();
    lemma_rules_not_d11(rs, lv, rs.len() as int);
    lemma_none_from_add(regex_rule_findings(rs, lv, rs.len() as int), concealment_findings(lv), "D11"@);
    lemma_none_from_add(
        regex_rule_findings(rs, lv, rs.len() as int) + concealment_findings(lv),
        param_findings(lv),
        "D11"@,
    );
}

proof fn lemma_pairs_not_d11(name: Seq<char>, ps: Seq<(Seq<char>, Seq<char>)>, n: int)
    requires
        0 <= n <= ps.len(),
    ensures
        none_from(pairs_findings(default_rules(), name, ps, n), "D11"@),
    decreases n,
{
    if n > 0 {
        lemma_pairs_not_d11(name, ps, n - 1);
        lemma_leaf_not_d11((name, ps[n - 1].0, ps[n - 1].1));
        lemma_none_from_add(
            pairs_findings(default_rules(), name, ps, n - 1),
            leaf_findings(default_rules(), (name, ps[n - 1].0, ps[n - 1].1)),
            "D11"@,
        );
    }
}

proof fn lemma_tools_not_d11(tools: Seq<ToolDef>, n: int)
    requires
        0 <= n <= tools.len(),
    ensures
        none_from(tools_findings(default_rules(), tools, n), "D11"@),
        none_from(oddity_findings(tools, n), "D11"@),
    decreases n,
{
    if n > 0 {
        lemma_tools_not_d11(tools, n - 1);
        let ps = capped(tool_pairs(tools[n - 1], (n - 1) as nat));
        lemma_pairs_not_d11(tools[n - 1].name@, ps, ps.len() as int);
        lemma_none_from_add(
            tools_findings(default_rules(), tools, n - 1),
            pairs_findings(default_rules(), tools[n - 1].name@, ps, ps.len() as int),
            "D11"@,
        );
        lemma_d11_distinct();
        assert(none_from(schema_findings(tools[n - 1], (n - 1) as nat), "D11"@));
        lemma_none_from_add(oddity_findings(tools, n - 1), schema_findings(tools[n - 1], (n - 1) as nat), "D11"@);
    }
}

proof fn lemma_dedupe_keeps_none(vs: Seq<FindingView>, d: Seq<char>, n: int)
    requires
        none_from(vs, d),
        0 <= n <= vs.len(),
    ensures
        none_from(dedupe_views(vs, n), d),
    decreases n,
{
    if n > 0 {
        lemma_dedupe_keeps_none(vs, d, n - 1);
        let p = dedupe_views(vs, n - 1);
        assert(vs[n - 1].detector != d);
        assert(none_from(p.push(vs[n - 1]), d)) by {
            assert forall|i: int| 0 <= i < p.len() + 1 implies (#[trigger] p.push(vs[n - 1])[i]).detector != d by {
                if i < p.len() {
                    assert(p.push(vs[n - 1])[i] == p[i]);
                }
            }
        }
    }
}

/// A scan of a trusted server reports no host-tool name collision (D11):
/// that detector runs only for untrusted servers.
pub proof fn lemma_trusted_scan_has_no_collisions(tools: Seq<ToolDef>)
    ensures
        none_from(scan_findings(tools, false), "D11"@),
{
    lemma_tools_not_d11(tools, tools.len() as int);
    let raw = raw_findings(tools, false);
    assert(collision_findings(tools, false) == Seq::<FindingView>::empty());
    lemma_none_from_add(
        tools_findings(default_rules(), tools, tools.len() as int),
        collision_findings(tools, false),
        "D11"@,
    );
    lemma_none_from_add(
        tools_findings(default_rules(), tools, tools.len() as int) + collision_findings(tools, false),
        oddity_findings(tools, tools.len() as int),
        "D11"@,
    );
    lemma_dedupe_keeps_none(raw, "D11"@, raw.len() as int);
}


// ---------------------------------------------------------------------
// Deduplication laws, and trusted against untrusted scans
// ---------------------------------------------------------------------

/// `dedupe_views` looks only at the first `m` findings.
proof fn lemma_dedupe_prefix(s: Seq<FindingView>, x: FindingView, m: int)
    requires
        0 <= m <= s.len(),
    ensures
        dedupe_views(s.push(x), m) == dedupe_views(s, m),
    decreases m,
{
    if m > 0 {
        lemma_dedupe_prefix(s, x, m - 1);
        assert(s.push(x)[m - 1] == s[m - 1]);
    }
}

/// Findings with pairwise different keys pass deduplication unchanged.
proof fn lemma_dedupe_distinct_keeps(vs: Seq<FindingView>, n: int)
    requires
        0 <= n <= vs.len(),
        forall|a: int, b: int| 0 <= a < b < vs.len() ==> dedupe_key(#[trigger] vs[a]) != dedupe_key(#[trigger] vs[b]),
    ensures
        dedupe_views(vs, n) == vs.take(n),
    decreases n,
{
    if n > 0 {
        lemma_dedupe_distinct_keeps(vs, n - 1);
        let d = dedupe_views(vs, n - 1);
        assert forall|k: int| 0 <= k < d.len() implies dedupe_key(#[trigger] d[k]) != dedupe_key(vs[n - 1]) by {
            assert(d[k] == vs[k]);
        }
        assert(vs.take(n) =~= vs.take(n - 1).push(vs[n - 1]));
    }
}

/// Deduplicating findings a second time changes nothing.
pub proof fn lemma_dedupe_idempotent(vs: Seq<FindingView>)
    ensures
        dedupe_views(dedupe_views(vs, vs.len() as int), dedupe_views(vs, vs.len() as int).len() as int)
            == dedupe_views(vs, vs.len() as int),
{
    let d = dedupe_views(vs, vs.len() as int);
    lemma_dedupe(vs, vs.len() as int);
    lemma_dedupe_distinct_keeps(d, d.len() as int);
    assert(d.take(d.len() as int) =~= d);
}

/// The findings of `vs[..n]`, in order, that are from detector `d` when
/// `keep` holds and that are not from it otherwise.
pub open spec fn sift(vs: Seq<FindingView>, d: Seq<char>, keep: bool, n: int) -> Seq<FindingView>
    decreases n,
{
    if n <= 0 || n > vs.len() {
        Seq::empty()
    } else if (vs[n - 1].detector == d) != keep {
        sift(vs, d, keep, n - 1)
    } else {
        sift(vs, d, keep, n - 1).push(vs[n - 1])
    }
}

/// The findings of `vs` that are not from detector `d`.
pub open spec fn without_all(vs: Seq<FindingView>, d: Seq<char>) -> Seq<FindingView> {
    sift(vs, d, false, vs.len() as int)
}

/// The findings of `vs` that are from detector `d`.
pub open spec fn only_all(vs: Seq<FindingView>, d: Seq<char>) -> Seq<FindingView> {
    sift(vs, d, true, vs.len() as int)
}

proof fn lemma_sift_seen(dd: Seq<FindingView>, d: Seq<char>, keep: bool, x: FindingView)
    requires
        (x.detector == d) == keep,
    ensures
        (exists|k: int| 0 <= k < dd.len() && dedupe_key(#[trigger] dd[k]) == dedupe_key(x)) <==> (exists|k: int|
            0 <= k < sift(dd, d, keep, dd.len() as int).len() && dedupe_key(
                #[trigger] sift(dd, d, keep, dd.len() as int)[k],
            ) == dedupe_key(x)),
    decreases dd.len(),
{
    if dd.len() > 0 {
        let p = dd.drop_last();
        lemma_sift_prefix(dd, d, keep, dd.len() - 1);
        lemma_sift_seen(p, d, keep, x);
        let wp = sift(p, d, keep, p.len() as int);
        let w = sift(dd, d, keep, dd.len() as int);
        assert(sift(dd, d, keep, dd.len() - 1) == wp);
        if exists|k: int| 0 <= k < dd.len() && dedupe_key(#[trigger] dd[k]) == dedupe_key(x) {
            let k = choose|k: int| 0 <= k < dd.len() && dedupe_key(#[trigger] dd[k]) == dedupe_key(x);
            if k < dd.len() - 1 {
                assert(p[k] == dd[k]);
                let k2 = choose|k2: int| 0 <= k2 < wp.len() && dedupe_key(#[trigger] wp[k2]) == dedupe_key(x);
                assert(w[k2] == wp[k2]);
            } else {
                assert((dd.last().detector == d) == keep);
                assert(w[wp.len() as int] == dd.last());
            }
        }
        if exists|k: int| 0 <= k < w.len() && dedupe_key(#[trigger] w[k]) == dedupe_key(x) {
            let k = choose|k: int| 0 <= k < w.len() && dedupe_key(#[trigger] w[k]) == dedupe_key(x);
            if k < wp.len() {
                assert(w[k] == wp[k]);
                let k2 = choose|k2: int| 0 <= k2 < p.len() && dedupe_key(#[trigger] p[k2]) == dedupe_key(x);
                assert(dd[k2] == p[k2]);
            } else {
                assert(w[k] == dd.last());
                assert(dd[dd.len() - 1] == dd.last());
            }
        }
    }
}

/// `sift` looks only at the first `n` findings.
proof fn lemma_sift_prefix(vs: Seq<FindingView>, d: Seq<char>, keep: bool, n: int)
    requires
        0 <= n <= vs.len(),
    ensures
        sift(vs, d, keep, n) == sift(vs.take(n), d, keep, n),
    decreases n,
{
    let t = vs.take(n);
    assert forall|m: int| 0 <= m <= n implies #[trigger] sift(vs, d, keep, m) == sift(t, d, keep, m) by {
        lemma_sift_same(vs, t, d, keep, m);
    }
}

proof fn lemma_sift_same(a: Seq<FindingView>, b: Seq<FindingView>, d: Seq<char>, keep: bool, m: int)
    requires
        0 <= m <= a.len(),
        m <= b.len(),
        forall|i: int| 0 <= i < m ==> a[i] == b[i],
    ensures
        sift(a, d, keep, m) == sift(b, d, keep, m),
    decreases m,
{
    if m > 0 {
        lemma_sift_same(a, b, d, keep, m - 1);
    }
}

/// Keeping or dropping one detector's findings commutes with deduplication:
/// the key of a finding holds its detector.
proof fn lemma_sift_dedupe(vs: Seq<FindingView>, d: Seq<char>, keep: bool, n: int)
    requires
        0 <= n <= vs.len(),
    ensures
        sift(dedupe_views(vs, n), d, keep, dedupe_views(vs, n).len() as int) == dedupe_views(
            sift(vs, d, keep, n),
            sift(vs, d, keep, n).len() as int,
        ),
    decreases n,
{
    if n > 0 {
        lemma_sift_dedupe(vs, d, keep, n - 1);
        let dd = dedupe_views(vs, n - 1);
        let u = sift(vs, d, keep, n - 1);
        let x = vs[n - 1];
        let seen = exists|k: int| 0 <= k < dd.len() && dedupe_key(#[trigger] dd[k]) == dedupe_key(x);
        if (x.detector == d) != keep {
            if !seen {
                lemma_sift_prefix(dd.push(x), d, keep, dd.len() as int);
                assert(dd.push(x).take(dd.len() as int) =~= dd);
            }
        } else {
            lemma_sift_seen(dd, d, keep, x);
            lemma_dedupe_prefix(u, x, u.len() as int);
            let du = dedupe_views(u, u.len() as int);
            assert(u.push(x)[u.len() as int] == x);
            if !seen {
                lemma_sift_prefix(dd.push(x), d, keep, dd.len() as int);
                assert(dd.push(x).take(dd.len() as int) =~= dd);
            }
        }
    }
}

/// Findings none of which is from `d`: dropping `d` keeps them all, keeping
/// `d` keeps none.
proof fn lemma_sift_none(vs: Seq<FindingView>, d: Seq<char>, n: int)
    requires
        0 <= n <= vs.len(),
        none_from(vs, d),
    ensures
        sift(vs, d, false, n) == vs.take(n),
        sift(vs, d, true, n) == Seq::<FindingView>::empty(),
    decreases n,
{
    if n > 0 {
        lemma_sift_none(vs, d, n - 1);
        assert(vs.take(n) =~= vs.take(n - 1).push(vs[n - 1]));
    }
}

/// Findings all of which are from `d`: dropping `d` keeps none, keeping `d`
/// keeps them all.
proof fn lemma_sift_all(vs: Seq<FindingView>, d: Seq<char>, n: int)
    requires
        0 <= n <= vs.len(),
        forall|i: int| 0 <= i < vs.len() ==> (#[trigger] vs[i]).detector == d,
    ensures
        sift(vs, d, false, n) == Seq::<FindingView>::empty(),
        sift(vs, d, true, n) == vs.take(n),
    decreases n,
{
    if n > 0 {
        lemma_sift_all(vs, d, n - 1);
        assert(vs.take(n) =~= vs.take(n - 1).push(vs[n - 1]));
    }
}

proof fn lemma_sift_concat(a: Seq<FindingView>, b: Seq<FindingView>, d: Seq<char>, keep: bool, m: int)
    requires
        0 <= m <= b.len(),
    ensures
        sift(a + b, d, keep, a.len() + m) == sift(a, d, keep, a.len() as int) + sift(b, d, keep, m),
    decreases m,
{
    if m == 0 {
        lemma_sift_same(a + b, a, d, keep, a.len() as int);
        assert(sift(b, d, keep, 0) =~= Seq::<FindingView>::empty());
        assert(sift(a, d, keep, a.len() as int) + Seq::<FindingView>::empty() =~= sift(a, d, keep, a.len() as int));
    } else {
        lemma_sift_concat(a, b, d, keep, m - 1);
        assert((a + b)[a.len() + m - 1] == b[m - 1]);
        assert(sift(a, d, keep, a.len() as int) + sift(b, d, keep, m - 1).push(b[m - 1]) =~= (sift(
            a,
            d,
            keep,
            a.len() as int,
        ) + sift(b, d, keep, m - 1)).push(b[m - 1]));
    }
}

proof fn lemma_collisions_all_d11(tools: Seq<ToolDef>, n: int)
    requires
        0 <= n <= tools.len(),
    ensures
        forall|i: int| 0 <= i < trusted_findings(tools, n).len() ==> (#[trigger] trusted_findings(tools, n)[i]).detector == "D11"@,
    decreases n,
{
    if n > 0 {
        lemma_collisions_all_d11(tools, n - 1);
        let p = trusted_findings(tools, n - 1);
        let q = trusted_findings(tools, n);
        assert forall|i: int| 0 <= i < q.len() implies (#[trigger] q[i]).detector == "D11"@ by {
            if i < p.len() {
                assert(q[i] == p[i]);
            }
        }
    }
}

/// A scan of a trusted server reports exactly the findings of the same scan
/// of an untrusted server without its host-tool name collisions (D11);
/// both are numbered from F-001 by `scan_tools`.
pub proof fn lemma_trusted_is_untrusted_without_collisions(tools: Seq<ToolDef>)
    ensures
        scan_findings(tools, false) == without_all(scan_findings(tools, true), "D11"@),
{
    let t = tools_findings(default_rules(), tools, tools.len() as int);
    let c = collision_findings(tools, true);
    let o = oddity_findings(tools, tools.len() as int);
    lemma_tools_not_d11(tools, tools.len() as int);
    let raw_t = raw_findings(tools, true);
    let raw_f = raw_findings(tools, false);
    assert(raw_t == t + c + o);
    assert(raw_f =~= t + o);
    lemma_sift_dedupe(raw_t, "D11"@, false, raw_t.len() as int);
    lemma_collisions_all_d11(tools, tools.len() as int);
    lemma_sift_all(c, "D11"@, c.len() as int);
    lemma_sift_concat(t, c, "D11"@, false, c.len() as int);
    lemma_sift_concat(t + c, o, "D11"@, false, o.len() as int);
    lemma_sift_none(t, "D11"@, t.len() as int);
    lemma_sift_none(o, "D11"@, o.len() as int);
    assert(t.take(t.len() as int) =~= t);
    assert(o.take(o.len() as int) =~= o);
    assert(sift(raw_t, "D11"@, false, raw_t.len() as int) =~= t + o);
}

/// Indices of the first `n` tools whose names are host-tool names, in order.
pub open spec fn trusted_indices(tools: Seq<ToolDef>, n: int) -> Seq<nat>
    decreases n,
{
    if n <= 0 || n > tools.len() {
        Seq::empty()
    } else {
        trusted_indices(tools, n - 1) + if is_trusted_name(tools[n - 1].name@) {
            seq![(n - 1) as nat]
        } else {
            Seq::empty()
        }
    }
}

/// `$.tools[i].name` names one tool.
proof fn lemma_tool_name_path_injective(i: nat, j: nat)
    requires
        tool_name_path(i) == tool_name_path(j),
    ensures
        i == j,
{
    reveal_strlit("$.tools[");
    reveal_strlit("]");
    reveal_strlit(".name");
    let a = tool_name_path(i);
    let b = tool_name_path(j);
    let di = crate::text::decimal(i);
    let dj = crate::text::decimal(j);
    assert(a.len() == 14 + di.len());
    assert(b.len() == 14 + dj.len());
    assert(di =~= a.subrange(8, 8 + di.len() as int));
    assert(dj =~= b.subrange(8, 8 + dj.len() as int));
    crate::text::lemma_decimal_injective(i, j);
}

proof fn lemma_trusted_findings_at(tools: Seq<ToolDef>, n: int)
    requires
        0 <= n <= tools.len(),
    ensures
        trusted_findings(tools, n).len() == trusted_indices(tools, n).len(),
        forall|k: int| 0 <= k < trusted_indices(tools, n).len() ==> {
            &&& (#[trigger] trusted_indices(tools, n)[k]) < n
            &&& is_trusted_name(tools[trusted_indices(tools, n)[k] as int].name@)
            &&& trusted_findings(tools, n)[k].json_path == tool_name_path(trusted_indices(tools, n)[k])
            &&& trusted_findings(tools, n)[k].tool_name == tools[trusted_indices(tools, n)[k] as int].name@
        },
        forall|a: int, b: int| 0 <= a < b < trusted_indices(tools, n).len() ==> #[trigger] trusted_indices(tools, n)[a]
            < #[trigger] trusted_indices(tools, n)[b],
        forall|i: int| 0 <= i < n && #[trigger] is_trusted_name(tools[i].name@) ==> trusted_indices(tools, n).contains(
            i as nat,
        ),
    decreases n,
{
    if n > 0 {
        lemma_trusted_findings_at(tools, n - 1);
        let pi = trusted_indices(tools, n - 1);
        let ti = trusted_indices(tools, n);
        let pf = trusted_findings(tools, n - 1);
        let tf = trusted_findings(tools, n);
        assert forall|k: int| 0 <= k < pi.len() implies ti[k] == pi[k] && tf[k] == pf[k] by {}
        assert forall|i: int| 0 <= i < n && #[trigger] is_trusted_name(tools[i].name@) implies ti.contains(
            i as nat,
        ) by {
            if i < n - 1 {
                let k = choose|k: int| 0 <= k < pi.len() && pi[k] == i as nat;
                assert(ti[k] == pi[k]);
            } else {
                assert(ti[pi.len() as int] == (n - 1) as nat);
            }
        }
    }
}

/// The host-tool name collisions (D11) that a scan of an untrusted server
/// reports are exactly its collision findings: one per tool whose name is a
/// host-tool name, in tool order, each on that tool's `$.tools[i].name`.
pub proof fn lemma_untrusted_collisions_at_tool_names(tools: Seq<ToolDef>)
    ensures
        only_all(scan_findings(tools, true), "D11"@) == collision_findings(tools, true),
        only_all(scan_findings(tools, true), "D11"@).len() == trusted_indices(tools, tools.len() as int).len(),
        forall|k: int| 0 <= k < trusted_indices(tools, tools.len() as int).len() ==> {
            let i = #[trigger] trusted_indices(tools, tools.len() as int)[k];
            &&& i < tools.len()
            &&& is_trusted_name(tools[i as int].name@)
            &&& only_all(scan_findings(tools, true), "D11"@)[k].json_path == tool_name_path(i)
            &&& only_all(scan_findings(tools, true), "D11"@)[k].tool_name == tools[i as int].name@
        },
        forall|a: int, b: int| 0 <= a < b < trusted_indices(tools, tools.len() as int).len() ==> #[trigger] trusted_indices(tools, tools.len() as int)[a]
            < #[trigger] trusted_indices(tools, tools.len() as int)[b],
        forall|i: int| 0 <= i < tools.len() && #[trigger] is_trusted_name(tools[i].name@) ==> trusted_indices(
            tools,
            tools.len() as int,
        ).contains(i as nat),
{
    let n = tools.len() as int;
    let t = tools_findings(default_rules(), tools, n);
    let c = collision_findings(tools, true);
    let o = oddity_findings(tools, n);
    let raw = raw_findings(tools, true);
    assert(raw == t + c + o);
    lemma_tools_not_d11(tools, n);
    lemma_collisions_all_d11(tools, n);
    lemma_trusted_findings_at(tools, n);
    lemma_sift_dedupe(raw, "D11"@, true, raw.len() as int);
    lemma_sift_all(c, "D11"@, c.len() as int);
    lemma_sift_concat(t, c, "D11"@, true, c.len() as int);
    lemma_sift_concat(t + c, o, "D11"@, true, o.len() as int);
    lemma_sift_none(t, "D11"@, t.len() as int);
    lemma_sift_none(o, "D11"@, o.len() as int);
    assert(c.take(c.len() as int) =~= c);
    assert(sift(raw, "D11"@, true, raw.len() as int) =~= c);
    let ti = trusted_indices(tools, n);
    assert forall|a: int, b: int| 0 <= a < b < c.len() implies dedupe_key(#[trigger] c[a]) != dedupe_key(
        #[trigger] c[b],
    ) by {
        assert(ti[a] < ti[b]);
        if c[a].json_path == c[b].json_path {
            lemma_tool_name_path_injective(ti[a], ti[b]);
        }
    }
    lemma_dedupe_distinct_keeps(c, c.len() as int);
}

proof fn lemma_first_sub_found(t: Seq<char>, ps: Seq<Seq<char>>, i: int)
    requires
        0 <= i <= ps.len(),
    ensures
        i <= first_sub_from(t, ps, i) <= ps.len(),
        first_sub_from(t, ps, i) < ps.len() ==> has_sub(t, ps[first_sub_from(t, ps, i)]),
        first_sub_from(t, ps, i) == ps.len() ==> forall|j: int| i <= j < ps.len() ==> !has_sub(t, #[trigger] ps[j]),
    decreases ps.len() - i,
{
    if i < ps.len() && !has_sub(t, ps[i]) {
        lemma_first_sub_found(t, ps, i + 1);
    }
}

/// D08 fires on a property-name or tool-name leaf exactly when one of the
/// parameter fragments occurs in the ASCII-lower-cased leaf text, with one
/// finding at most; so two leaves on one path whose texts differ only in
/// ASCII letter case get the same D08 result.
pub proof fn lemma_param_semantic_ignores_case(a: LeafView, b: LeafView)
    requires
        a.1 == b.1,
        lower(a.2) == lower(b.2),
    ensures
        param_findings(a).len() <= 1,
        (param_findings(a).len() == 1) <==> ((is_suffix("#key"@, a.1) || is_suffix(".name"@, a.1)) && exists|i: int|
            0 <= i < param_patterns().len() && has_sub(lower(a.2), #[trigger] param_patterns()[i])),
        param_findings(a).len() == 1 ==> param_findings(a)[0].detector == "D08"@ && param_findings(a)[0].json_path
            == a.1,
        param_findings(a).len() == param_findings(b).len(),
{
    lemma_first_sub_found(lower(a.2), param_patterns(), 0);
    lemma_first_sub_found(lower(b.2), param_patterns(), 0);
    let j = first_sub_from(lower(a.2), param_patterns(), 0);
    if j == param_patterns().len() {
        assert(!(exists|i: int| 0 <= i < param_patterns().len() && has_sub(lower(a.2), #[trigger] param_patterns()[i])));
    }
}

/// The detail of a D04 finding on tool `name` of server `sid` that mentions
/// tool `m`, or that names `m` in concealment wording.
pub open spec fn cross_server_detail(f: FindingView, sid: Seq<char>, name: Seq<char>, m: Seq<char>) -> bool {
    ||| f.detail == "Server `"@ + sid + "` tool `"@ + name + "` mentions tool `"@ + m
        + "` which exists only on another server in this config (cross-server shadowing pattern)."@
    ||| f.detail == "Description mentions foreign tool `"@ + m + "` and concealment language."@
}

/// Finding `f` is a D04 finding on tool `name` of server `sid` about a tool
/// `m` that is in `global` and not in `local`.
pub open spec fn d04_about(f: FindingView, sid: Seq<char>, name: Seq<char>, local: Seq<Seq<char>>, global: Seq<Seq<char>>, m: Seq<char>) -> bool {
    &&& global.contains(m)
    &&& !local.contains(m)
    &&& f.detector == "D04"@
    &&& f.tool_name == name
    &&& cross_server_detail(f, sid, name, m)
}

/// Tool `i` of server `s` is named `m`.
pub open spec fn tool_named(invs: Seq<(String, ToolsListResult)>, s: int, i: int, m: Seq<char>) -> bool {
    0 <= s < invs.len() && 0 <= i < invs[s].1.tools@.len() && invs[s].1.tools@[i].name@ == m
}

/// Finding `f` is a D04 finding on tool `i` of server `s` about tool `m`,
/// which no tool of server `s` is named and some tool of another server is.
pub open spec fn foreign_mention_at(invs: Seq<(String, ToolsListResult)>, f: FindingView, s: int, i: int, m: Seq<char>) -> bool {
    &&& 0 <= s < invs.len()
    &&& 0 <= i < invs[s].1.tools@.len()
    &&& f.detector == "D04"@
    &&& f.tool_name == invs[s].1.tools@[i].name@
    &&& forall|t: int| 0 <= t < invs[s].1.tools@.len() ==> (#[trigger] invs[s].1.tools@[t]).name@ != m
    &&& exists|s2: int, i2: int| s2 != s && #[trigger] tool_named(invs, s2, i2, m)
    &&& cross_server_detail(f, invs[s].0@, invs[s].1.tools@[i].name@, m)
}

/// Finding `f` is a D04 finding on tool `name` of server `sid` about some
/// tool that is in `global` and not in `local`.
pub open spec fn d04_foreign(f: FindingView, sid: Seq<char>, name: Seq<char>, local: Seq<Seq<char>>, global: Seq<Seq<char>>) -> bool {
    exists|m: Seq<char>| #[trigger] d04_about(f, sid, name, local, global, m)
}

/// `d04_foreign` on some tool of server `sid`.
pub open spec fn d04_in_server(f: FindingView, sid: Seq<char>, tools: Seq<ToolDef>, local: Seq<Seq<char>>, global: Seq<Seq<char>>) -> bool {
    exists|i: int| 0 <= i < tools.len() && #[trigger] d04_foreign(f, sid, tools[i].name@, local, global)
}

/// `d04_foreign` on some tool of some server of `invs`, its local names
/// being that server's tool names.
pub open spec fn d04_in_session(f: FindingView, invs: Seq<(String, ToolsListResult)>, global: Seq<Seq<char>>) -> bool {
    exists|s: int| 0 <= s < invs.len() && #[trigger] d04_in_server(f, invs[s].0@, invs[s].1.tools@, server_names(invs[s].1), global)
}

/// Finding `f` is a D04 finding on some tool `i` of some server `s` about a
/// tool name `m` that no tool of server `s` has and a tool of another server
/// has.
pub open spec fn names_foreign_tool(invs: Seq<(String, ToolsListResult)>, f: FindingView) -> bool {
    exists|s: int, i: int, m: Seq<char>| #[trigger] foreign_mention_at(invs, f, s, i, m)
}

proof fn lemma_mention_findings_foreign(
    ms: Seq<Seq<char>>,
    local: Seq<Seq<char>>,
    global: Seq<Seq<char>>,
    sid: Seq<char>,
    name: Seq<char>,
    lv: LeafView,
    k: int,
)
    requires
        lv.0 == name,
    ensures
        forall|x: int| 0 <= x < mention_findings(ms, local, global, sid, name, lv, k).len() ==> #[trigger] d04_foreign(
            mention_findings(ms, local, global, sid, name, lv, k)[x], sid, name, local, global),
    decreases k,
{
    if k > 0 && k <= ms.len() {
        lemma_mention_findings_foreign(ms, local, global, sid, name, lv, k - 1);
        let p = mention_findings(ms, local, global, sid, name, lv, k - 1);
        let q = mention_findings(ms, local, global, sid, name, lv, k);
        let m = ms[k - 1];
        assert forall|x: int| 0 <= x < q.len() implies #[trigger] d04_foreign(q[x], sid, name, local, global) by {
            if x < p.len() {
                assert(q[x] == p[x]);
            } else {
                assert(d04_about(q[x], sid, name, local, global, m));
            }
        }
    }
}

proof fn lemma_first_foreign_found(global: Seq<Seq<char>>, local: Seq<Seq<char>>, desc: Seq<char>, j: int)
    ensures
        first_foreign(global, local, desc, j) matches Some(r) ==> 0 <= r < global.len() && !local.contains(global[r]),
    decreases global.len() - j,
{
    if 0 <= j < global.len() && !(!local.contains(global[j]) && has_sub(desc, global[j]) && utf8_len(global[j]) >= 6) {
        lemma_first_foreign_found(global, local, desc, j + 1);
    }
}

proof fn lemma_tool_shadow_foreign(sid: Seq<char>, local: Seq<Seq<char>>, global: Seq<Seq<char>>, tool: ToolDef, idx: nat)
    ensures
        forall|x: int| 0 <= x < tool_shadow_findings(sid, local, global, tool, idx).len() ==> #[trigger] d04_foreign(
            tool_shadow_findings(sid, local, global, tool, idx)[x], sid, tool.name@, local, global),
{
    match tool.description {
        None => {},
        Some(d) => {
            let desc = d@;
            let lv = (tool.name@, server_desc_path(sid, idx), desc);
            let ms = mention_texts(desc);
            let a = mention_findings(ms, local, global, sid, tool.name@, lv, ms.len() as int);
            lemma_mention_findings_foreign(ms, local, global, sid, tool.name@, lv, ms.len() as int);
            lemma_first_foreign_found(global, local, desc, 0);
            let all = tool_shadow_findings(sid, local, global, tool, idx);
            assert forall|x: int| 0 <= x < all.len() implies #[trigger] d04_foreign(all[x], sid, tool.name@, local, global) by {
                if x < a.len() {
                    assert(all[x] == a[x]);
                } else {
                    let j = first_foreign(global, local, desc, 0)->0;
                    assert(d04_about(all[x], sid, tool.name@, local, global, global[j]));
                }
            }
        },
    }
}

proof fn lemma_server_shadow_foreign(sid: Seq<char>, tools: Seq<ToolDef>, local: Seq<Seq<char>>, global: Seq<Seq<char>>, n: int)
    ensures
        forall|x: int| 0 <= x < server_shadow_findings(sid, tools, local, global, n).len() ==> #[trigger] d04_in_server(
            server_shadow_findings(sid, tools, local, global, n)[x], sid, tools, local, global),
    decreases n,
{
    if n > 0 && n <= tools.len() {
        lemma_server_shadow_foreign(sid, tools, local, global, n - 1);
        lemma_tool_shadow_foreign(sid, local, global, tools[n - 1], (n - 1) as nat);
        let p = server_shadow_findings(sid, tools, local, global, n - 1);
        let t = tool_shadow_findings(sid, local, global, tools[n - 1], (n - 1) as nat);
        let q = server_shadow_findings(sid, tools, local, global, n);
        assert forall|x: int| 0 <= x < q.len() implies #[trigger] d04_in_server(q[x], sid, tools, local, global) by {
            if x < p.len() {
                assert(q[x] == p[x]);
            } else {
                assert(q[x] == t[x - p.len()]);
                assert(d04_foreign(t[x - p.len()], sid, tools[n - 1].name@, local, global));
            }
        }
    }
}

proof fn lemma_shadow_foreign(invs: Seq<(String, ToolsListResult)>, global: Seq<Seq<char>>, n: int)
    ensures
        forall|x: int| 0 <= x < shadow_findings(invs, global, n).len() ==> #[trigger] d04_in_session(
            shadow_findings(invs, global, n)[x], invs, global),
    decreases n,
{
    if n > 0 && n <= invs.len() {
        lemma_shadow_foreign(invs, global, n - 1);
        let inv = invs[n - 1];
        lemma_server_shadow_foreign(inv.0@, inv.1.tools@, server_names(inv.1), global, inv.1.tools@.len() as int);
        let p = shadow_findings(invs, global, n - 1);
        let t = server_shadow_findings(inv.0@, inv.1.tools@, server_names(inv.1), global, inv.1.tools@.len() as int);
        let q = shadow_findings(invs, global, n);
        assert forall|x: int| 0 <= x < q.len() implies #[trigger] d04_in_session(q[x], invs, global) by {
            if x < p.len() {
                assert(q[x] == p[x]);
            } else {
                assert(q[x] == t[x - p.len()]);
                assert(d04_in_server(t[x - p.len()], inv.0@, inv.1.tools@, server_names(inv.1), global));
                assert(d04_in_server(q[x], invs[n - 1].0@, invs[n - 1].1.tools@, server_names(invs[n - 1].1), global));
            }
        }
    }
}

proof fn lemma_global_names_named(invs: Seq<(String, ToolsListResult)>, n: int, m: Seq<char>)
    requires
        0 <= n <= invs.len(),
        global_names(invs, n).contains(m),
    ensures
        exists|s: int, i: int| 0 <= s < n && #[trigger] tool_named(invs, s, i, m),
    decreases n,
{
    let p = global_names(invs, n - 1);
    let sn = server_names(invs[n - 1].1);
    let k = choose|k: int| 0 <= k < global_names(invs, n).len() && global_names(invs, n)[k] == m;
    if k < p.len() {
        assert(p[k] == m);
        lemma_global_names_named(invs, n - 1, m);
    } else {
        assert(sn[k - p.len()] == m);
        assert(tool_named(invs, n - 1, k - p.len(), m));
    }
}

/// Every finding of cross-server analysis is a D04 finding on the
/// description of some tool `i` of some server `s` about a tool name `m`
/// that no tool of server `s` has and that a tool of another server has.
pub proof fn lemma_cross_server_names_foreign_tool(invs: Seq<(String, ToolsListResult)>)
    ensures
        forall|x: int| 0 <= x < cross_server_findings(invs).len() ==> #[trigger] names_foreign_tool(invs, cross_server_findings(invs)[x]),
{
    if invs.len() >= 2 {
        let global = global_names(invs, invs.len() as int);
        lemma_shadow_foreign(invs, global, invs.len() as int);
        let fs = cross_server_findings(invs);
        assert forall|x: int| 0 <= x < fs.len() implies #[trigger] names_foreign_tool(invs, fs[x]) by {
            assert(d04_in_session(fs[x], invs, global));
            let s = choose|s: int| 0 <= s < invs.len() && #[trigger] d04_in_server(fs[x], invs[s].0@, invs[s].1.tools@, server_names(invs[s].1), global);
            let local = server_names(invs[s].1);
            let i = choose|i: int| 0 <= i < invs[s].1.tools@.len() && #[trigger] d04_foreign(fs[x], invs[s].0@, invs[s].1.tools@[i].name@, local, global);
            let m = choose|m: Seq<char>| #[trigger] d04_about(fs[x], invs[s].0@, invs[s].1.tools@[i].name@, local, global, m);
            assert forall|t: int| 0 <= t < invs[s].1.tools@.len() implies (#[trigger] invs[s].1.tools@[t]).name@ != m by {
                assert(local[t] == invs[s].1.tools@[t].name@);
            }
            lemma_global_names_named(invs, invs.len() as int, m);
            let (s2, i2) = choose|s2: int, i2: int| 0 <= s2 < invs.len() && #[trigger] tool_named(invs, s2, i2, m);
            if s2 == s {
                assert(local[i2] == m);
            }
            assert(foreign_mention_at(invs, fs[x], s, i, m));
        }
    }
}

} // verus!
