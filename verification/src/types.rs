//! Data types shared by the scanner, the pin store and the reports.
use vstd::prelude::*;
use crate::json::{assoc_get, keys_sorted, JsonValue};
use crate::text::{lemma_str_lt_trans, str_eq, str_less, str_lt};

verus! {

/// How bad a finding is, from least to most severe.
#[derive(Clone, Copy, Debug, PartialEq, Eq, Structural, PartialOrd, Ord, Hash)]
pub enum Severity {
    Info,
    Low,
    Medium,
    High,
    Critical,
}

impl Severity {
    /// Position of the level in the order `Info < Low < Medium < High < Critical`.
    pub open spec fn spec_rank(self) -> nat {
        match self {
            Severity::Info => 0,
            Severity::Low => 1,
            Severity::Medium => 2,
            Severity::High => 3,
            Severity::Critical => 4,
        }
    }

    /// Position of the level in the severity order.
    pub fn rank(&self) -> (r: u8)
        ensures
            r == self.spec_rank(),
    {
        match self {
            Severity::Info => 0,
            Severity::Low => 1,
            Severity::Medium => 2,
            Severity::High => 3,
            Severity::Critical => 4,
        }
    }

    /// `self` is at least as severe as `other`.
    pub fn at_least(&self, other: &Severity) -> (r: bool)
        ensures
            r == (self.spec_rank() >= other.spec_rank()),
    {
        self.rank() >= other.rank()
    }

    /// The lower-case name of the level, as shown in reports.
    pub open spec fn spec_name(self) -> Seq<char> {
        match self {
            Severity::Info => "info"@,
            Severity::Low => "low"@,
            Severity::Medium => "medium"@,
            Severity::High => "high"@,
            Severity::Critical => "critical"@,
        }
    }

    /// The lower-case name of the level.
    pub fn as_str(&self) -> (r: &'static str)
        ensures
            r@ == self.spec_name(),
    {
        match self {
            Severity::Info => "info",
            Severity::Low => "low",
            Severity::Medium => "medium",
            Severity::High => "high",
            Severity::Critical => "critical",
        }
    }

    /// The level named by `s` (the names of `as_str`, any ASCII case).
    pub open spec fn spec_parse(s: Seq<char>) -> Option<Severity> {
        let t = crate::text::lower(s);
        if t == "info"@ {
            Some(Severity::Info)
        } else if t == "low"@ {
            Some(Severity::Low)
        } else if t == "medium"@ {
            Some(Severity::Medium)
        } else if t == "high"@ {
            Some(Severity::High)
        } else if t == "critical"@ {
            Some(Severity::Critical)
        } else {
            None
        }
    }

    /// Parses a `--fail-on` threshold; `None` for an unknown name.
    pub fn parse_threshold(s: &str) -> (r: Option<Severity>)
        ensures
            r == Severity::spec_parse(s@),
    {
        let t = crate::text::to_ascii_lowercase(s);
        let t = t.as_str();
        if crate::text::str_eq(t, "info") {
            Some(Severity::Info)
        } else if crate::text::str_eq(t, "low") {
            Some(Severity::Low)
        } else if crate::text::str_eq(t, "medium") {
            Some(Severity::Medium)
        } else if crate::text::str_eq(t, "high") {
            Some(Severity::High)
        } else if crate::text::str_eq(t, "critical") {
            Some(Severity::Critical)
        } else {
            None
        }
    }
}

/// How sure a detector is of a finding.
#[derive(Clone, Copy, Debug, PartialEq, Eq, Structural, PartialOrd, Ord, Hash)]
pub enum Confidence {
    Low,
    Medium,
    High,
}

/// What kind of evidence a scan rests on.
#[derive(Clone, Copy, Debug, PartialEq, Eq, Structural, Hash)]
pub enum ProofClass {
    /// A captured `tools/list` document.
    Fixture,
    /// A live local server.
    Local,
}

impl ProofClass {
    pub open spec fn spec_name(self) -> Seq<char> {
        match self {
            ProofClass::Fixture => "fixture"@,
            ProofClass::Local => "local"@,
        }
    }

    /// The lower-case name, as shown in reports.
    pub fn as_str(&self) -> (r: &'static str)
        ensures
            r@ == self.spec_name(),
    {
        match self {
            ProofClass::Fixture => "fixture",
            ProofClass::Local => "local",
        }
    }
}

/// One tool of an MCP `tools/list` inventory.
#[derive(Debug)]
pub struct ToolDef {
    pub name: String,
    pub title: Option<String>,
    pub description: Option<String>,
    pub input_schema: Option<JsonValue>,
    pub output_schema: Option<JsonValue>,
    /// Any other members of the tool object, sorted by key.
    pub extra: Vec<(String, JsonValue)>,
}

/// A `tools/list` result page.
#[derive(Debug)]
pub struct ToolsListResult {
    pub tools: Vec<ToolDef>,
    pub next_cursor: Option<String>,
}

/// One string of a tool's metadata, with where it was found.
#[derive(Debug, Clone)]
pub struct StringLeaf {
    pub tool_name: String,
    pub json_path: String,
    pub value: String,
}

/// What a finding rests on.
#[derive(Debug, Clone)]
pub struct Evidence {
    pub snippet: String,
    pub snippet_hash: String,
    pub matched_rules: Vec<String>,
}

/// One detector hit.
#[derive(Debug, Clone)]
pub struct Finding {
    pub id: String,
    pub detector: String,
    pub technique: String,
    pub owasp: Vec<String>,
    pub atlas: Vec<String>,
    pub severity: Severity,
    pub confidence: Confidence,
    pub tool_name: String,
    pub json_path: String,
    pub title: String,
    pub detail: String,
    pub evidence: Evidence,
    pub remediation: String,
    pub references: Vec<String>,
}

/// The reviewed hashes of one server's inventory.
#[derive(Debug, Clone)]
pub struct ToolPins {
    pub server_hash: String,
    /// Tool name to tool hash, sorted by name.
    pub tools: Vec<(String, String)>,
    pub command: Option<String>,
    pub args: Vec<String>,
    /// When the pins were taken (RFC 3339 text).
    pub pinned_at: Option<String>,
    pub server_name: Option<String>,
}

/// Pins of several servers, sorted by server key.
#[derive(Debug, Clone)]
pub struct PinStore {
    pub servers: Vec<(String, ToolPins)>,
}

/// A pin store as it keeps itself: server keys strictly increasing, and the
/// tool names of every server's pins strictly increasing.
pub open spec fn store_wf(s: PinStore) -> bool {
    &&& keys_sorted(s.servers@)
    &&& forall|k: int| 0 <= k < s.servers@.len() ==> keys_sorted(#[trigger] s.servers@[k].1.tools@)
}

/// Whether the keys of `es` strictly increase.
pub fn keys_are_sorted<V>(es: &Vec<(String, V)>) -> (r: bool)
    ensures
        r == keys_sorted(es@),
{
    let n = es.len();
    if n == 0 {
        return true;
    }
    let mut i: usize = 1;
    while i < n
        invariant
            1 <= i <= n,
            n == es@.len(),
            keys_sorted(es@.take(i as int)),
        decreases n - i,
    {
        if !str_less(es[i - 1].0.as_str(), es[i].0.as_str()) {
            assert(!str_lt(es@[i - 1].0@, es@[i as int].0@));
            proof {
                if keys_sorted(es@) {
                    assert(str_lt(es@[i - 1].0@, es@[i as int].0@));
                }
            }
            return false;
        }
        assert forall|a: int, b: int| 0 <= a < b < i + 1 implies str_lt(
            #[trigger] es@.take(i + 1)[a].0@,
            #[trigger] es@.take(i + 1)[b].0@,
        ) by {
            if b == i && a < i - 1 {
                assert(str_lt(es@.take(i as int)[a].0@, es@.take(i as int)[i - 1].0@));
                lemma_str_lt_trans(es@[a].0@, es@[i - 1].0@, es@[b].0@);
            } else if b < i {
                assert(str_lt(es@.take(i as int)[a].0@, es@.take(i as int)[b].0@));
            }
        }
        i = i + 1;
    }
    assert(es@.take(n as int) =~= es@);
    true
}

impl PinStore {
    /// An empty store.
    pub fn new() -> (r: PinStore)
        ensures
            r.servers@.len() == 0,
            store_wf(r),
    {
        PinStore { servers: Vec::new() }
    }

    /// Whether the store is as it keeps itself: server keys strictly
    /// increasing, and the tool names of each server's pins strictly
    /// increasing.
    pub fn is_sorted(&self) -> (r: bool)
        ensures
            r == store_wf(*self),
    {
        if !keys_are_sorted(&self.servers) {
            return false;
        }
        let n = self.servers.len();
        for i in 0..n
            invariant
                n == self.servers@.len(),
                forall|k: int| 0 <= k < i ==> keys_sorted(#[trigger] self.servers@[k].1.tools@),
        {
            if !keys_are_sorted(&self.servers[i].1.tools) {
                return false;
            }
        }
        true
    }

    /// The pins stored under `key`.
    pub fn get(&self, key: &str) -> (r: Option<&ToolPins>)
        ensures
            match r {
                Some(p) => assoc_get(self.servers@, key@) == Some(*p) && (store_wf(*self) ==> keys_sorted(p.tools@)),
                None => assoc_get(self.servers@, key@) is None,
            },
    {
        let es = &self.servers;
        let mut i = es.len();
        assert(es@.take(i as int) =~= es@);
        while i > 0
            invariant
                i <= es@.len(),
                es@ == self.servers@,
                assoc_get(es@, key@) == assoc_get(es@.take(i as int), key@),
            decreases i,
        {
            assert(es@.take(i as int).drop_last() =~= es@.take(i - 1));
            assert(es@.take(i as int).last() == es@[i - 1]);
            if str_eq(es[i - 1].0.as_str(), key) {
                return Some(&es[i - 1].1);
            }
            i = i - 1;
        }
        None
    }
}

/// What was scanned.
#[derive(Debug, Clone)]
pub struct TargetInfo {
    pub transport: String,
    pub server_name: Option<String>,
    pub server_version: Option<String>,
    pub command: Option<String>,
    pub args: Vec<String>,
    pub proof_class: ProofClass,
}

/// Counts and the top severity of a report.
#[derive(Debug, Clone)]
pub struct ScanSummary {
    pub tools: usize,
    pub findings: usize,
    pub max_severity: Option<Severity>,
    pub server_hash: String,
}


/// The texts of a list of strings.
pub open spec fn strs_view(v: Seq<String>) -> Seq<Seq<char>> {
    v.map_values(|s: String| s@)
}

/// Everything a finding says except its id, by text.
pub struct FindingView {
    pub detector: Seq<char>,
    pub technique: Seq<char>,
    pub owasp: Seq<Seq<char>>,
    pub atlas: Seq<Seq<char>>,
    pub severity: Severity,
    pub confidence: Confidence,
    pub tool_name: Seq<char>,
    pub json_path: Seq<char>,
    pub title: Seq<char>,
    pub detail: Seq<char>,
    pub snippet: Seq<char>,
    pub snippet_hash: Seq<char>,
    pub matched_rules: Seq<Seq<char>>,
    pub remediation: Seq<char>,
    pub references: Seq<Seq<char>>,
}

impl View for Finding {
    type V = FindingView;

    open spec fn view(&self) -> FindingView {
        FindingView {
            detector: self.detector@,
            technique: self.technique@,
            owasp: strs_view(self.owasp@),
            atlas: strs_view(self.atlas@),
            severity: self.severity,
            confidence: self.confidence,
            tool_name: self.tool_name@,
            json_path: self.json_path@,
            title: self.title@,
            detail: self.detail@,
            snippet: self.evidence.snippet@,
            snippet_hash: self.evidence.snippet_hash@,
            matched_rules: strs_view(self.evidence.matched_rules@),
            remediation: self.remediation@,
            references: strs_view(self.references@),
        }
    }
}

/// The id text of finding number `n`: `F-` and three or more digits.
pub open spec fn id_text(n: nat) -> Seq<char> {
    "F-"@ + crate::text::decimal3(n)
}

/// `n + k`, capped at `usize::MAX`.
pub open spec fn sat_add(n: nat, k: nat) -> nat {
    if n + k > usize::MAX {
        usize::MAX as nat
    } else {
        n + k
    }
}

/// `new` is `prev` followed by findings with views `vs`, numbered from `start`.
pub open spec fn appended(prev: Seq<Finding>, new: Seq<Finding>, start: nat, vs: Seq<FindingView>) -> bool {
    &&& new.len() == prev.len() + vs.len()
    &&& forall|i: int| 0 <= i < prev.len() ==> #[trigger] new[i] == prev[i]
    &&& forall|i: int|
        0 <= i < vs.len() ==> #[trigger] new[prev.len() + i]@ == vs[i] && new[prev.len() + i].id@
            == id_text(sat_add(start, i as nat))
}

/// The findings `fs` have views `vs` and are numbered from 1.
pub open spec fn numbered(fs: Seq<Finding>, vs: Seq<FindingView>) -> bool {
    &&& fs.len() == vs.len()
    &&& forall|i: int| 0 <= i < vs.len() ==> #[trigger] fs[i]@ == vs[i] && fs[i].id@ == id_text(sat_add(1, i as nat))
}

/// One more finding, numbered next, keeps a list numbered.
pub proof fn lemma_numbered_push(fs: Seq<Finding>, vs: Seq<FindingView>, f: Finding)
    requires
        numbered(fs, vs),
        f.id@ == id_text(sat_add(1, vs.len())),
    ensures
        numbered(fs.push(f), vs.push(f@)),
{
    assert forall|i: int| 0 <= i < vs.len() + 1 implies #[trigger] fs.push(f)[i]@ == vs.push(f@)[i] && fs.push(f)[i].id@ == id_text(sat_add(1, i as nat)) by {
        if i < vs.len() {
            assert(fs.push(f)[i] == fs[i]);
        }
    }
}

} // verus!
