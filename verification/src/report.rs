//! Scan reports: what a scan found, with its human and Markdown renderings.
use vstd::prelude::*;
use crate::pin::now_rfc3339;
use crate::text::{chars_of, decimal, push_char, push_decimal};
use crate::types::{Finding, ProofClass, ScanSummary, Severity, TargetInfo, ToolDef, ToolPins};

verus! {

/// The outcome of one scan.
#[derive(Debug)]
pub struct ScanReport {
    pub schema_version: String,
    pub scan_id: String,
    /// When the scan ran (RFC 3339 text).
    pub scanned_at: String,
    pub target: TargetInfo,
    pub summary: ScanSummary,
    pub findings: Vec<Finding>,
    pub pins: ToolPins,
    /// The current inventory (used by pin/check).
    pub tools: Vec<ToolDef>,
}

/// The most severe level among the first `n` findings.
pub open spec fn max_sev(fs: Seq<Finding>, n: int) -> Option<Severity>
    decreases n,
{
    if n <= 0 || n > fs.len() {
        None
    } else {
        let s = fs[n - 1].severity;
        match max_sev(fs, n - 1) {
            None => Some(s),
            Some(m) => if s.spec_rank() >= m.spec_rank() {
                Some(s)
            } else {
                Some(m)
            },
        }
    }
}

proof fn lemma_max_sev(fs: Seq<Finding>, n: int)
    requires
        0 <= n <= fs.len(),
    ensures
        n == 0 <==> max_sev(fs, n) is None,
        max_sev(fs, n) matches Some(m) ==> (forall|i: int| 0 <= i < n ==> (#[trigger] fs[i]).severity.spec_rank()
            <= m.spec_rank()) && (exists|i: int| 0 <= i < n && (#[trigger] fs[i]).severity == m),
    decreases n,
{
    if n > 0 {
        lemma_max_sev(fs, n - 1);
        let s = fs[n - 1].severity;
        match max_sev(fs, n - 1) {
            None => {
                assert(fs[n - 1].severity == s);
            },
            Some(m) => {
                if s.spec_rank() >= m.spec_rank() {
                    assert(fs[n - 1].severity == s);
                }
            },
        }
    }
}

/// The most severe level of a list of findings.
pub open spec fn max_severity_of(fs: Seq<Finding>) -> Option<Severity> {
    max_sev(fs, fs.len() as int)
}

/// Some finding is at least as severe as `t`.
pub open spec fn any_at_least(fs: Seq<Finding>, t: Severity) -> bool {
    exists|i: int| 0 <= i < fs.len() && (#[trigger] fs[i]).severity.spec_rank() >= t.spec_rank()
}

/// The summary and schema version agree with the rest of the report.
pub open spec fn consistent(r: ScanReport) -> bool {
    &&& r.schema_version@ == "0.1.0"@
    &&& r.summary.tools == r.tools@.len()
    &&& r.summary.findings == r.findings@.len()
    &&& r.summary.max_severity == max_severity_of(r.findings@)
    &&& r.summary.server_hash@ == r.pins.server_hash@
}

/// A report of `findings` on `tools` under `pins`, without its id and time.
pub open spec fn report_body(
    r: ScanReport,
    target: TargetInfo,
    findings: Seq<Finding>,
    pins: ToolPins,
    tools: Seq<ToolDef>,
) -> bool {
    &&& r.target == target
    &&& r.findings@ == findings
    &&& r.pins == pins
    &&& r.tools@ == tools
    &&& consistent(r)
}

/// The scan id: a compact UTC stamp, `_`, and the first eight characters
/// of a random UUID.
pub open spec fn scan_id_text(stamp: Seq<char>, uid: Seq<char>) -> Seq<char> {
    stamp + "_"@ + uid.take(8)
}

/// `chrono::Utc::now().format("%Y%m%dT%H%M%SZ")`: the current UTC time as
/// compact text, which ends with the literal `Z` of the format. Nothing is
/// stated of the time it reads.
#[verifier::external_body]
fn utc_compact_stamp() -> (r: String)
    ensures
        r@.len() > 0 && r@.last() == 'Z',
{
    chrono::Utc::now().format("%Y%m%dT%H%M%SZ").to_string()
}

/// `uuid::Uuid::new_v4().to_string()`: a random UUID in its hyphenated
/// text form, which is always 36 characters long.
#[verifier::external_body]
fn uuid_v4_text() -> (r: String)
    ensures
        r@.len() == 36,
{
    uuid::Uuid::new_v4().to_string()
}

/// The most severe level of a list of findings.
fn max_severity_in(findings: &Vec<Finding>) -> (r: Option<Severity>)
    ensures
        r == max_severity_of(findings@),
{
    let mut best: Option<Severity> = None;
    let n = findings.len();
    for i in 0..n
        invariant
            n == findings@.len(),
            best == max_sev(findings@, i as int),
    {
        let s = findings[i].severity;
        best = match best {
            None => Some(s),
            Some(m) => if s.at_least(&m) {
                Some(s)
            } else {
                Some(m)
            },
        };
    }
    best
}

/// The first `n` characters of `s`.
fn take_chars(s: &str, n: usize) -> (r: String)
    requires
        n <= s@.len(),
    ensures
        r@ == s@.take(n as int),
{
    let cs = chars_of(s);
    let mut r = String::new();
    for i in 0..n
        invariant
            n <= cs@.len(),
            cs@ == s@,
            r@ == cs@.take(i as int),
    {
        push_char(&mut r, cs[i]);
        assert(cs@.take(i + 1) =~= cs@.take(i as int).push(cs@[i as int]));
    }
    r
}

impl ScanReport {
    /// A report from its parts, a time stamp `stamp`, a UUID text `uid`
    /// and the scan time `scanned_at`.
    pub fn assemble(
        target: TargetInfo,
        findings: Vec<Finding>,
        pins: ToolPins,
        tools: Vec<ToolDef>,
        stamp: &str,
        uid: &str,
        scanned_at: String,
    ) -> (r: ScanReport)
        requires
            uid@.len() >= 8,
        ensures
            report_body(r, target, findings@, pins, tools@),
            r.scan_id@ == scan_id_text(stamp@, uid@),
            r.scanned_at == scanned_at,
    {
        let max_severity = max_severity_in(&findings);
        let tool_count = tools.len();
        let mut scan_id = stamp.to_owned();
        scan_id.append("_");
        let short = take_chars(uid, 8);
        scan_id.append(short.as_str());
        let summary = ScanSummary {
            tools: tool_count,
            findings: findings.len(),
            max_severity,
            server_hash: pins.server_hash.clone(),
        };
        ScanReport {
            schema_version: "0.1.0".to_owned(),
            scan_id,
            scanned_at,
            target,
            summary,
            findings,
            pins,
            tools,
        }
    }

    /// A new report, stamped with the current time and a random id.
    pub fn new(target: TargetInfo, findings: Vec<Finding>, pins: ToolPins, tools: Vec<ToolDef>) -> (r: ScanReport)
        ensures
            report_body(r, target, findings@, pins, tools@),
            exists|stamp: Seq<char>, uid: Seq<char>|
                stamp.len() > 0 && stamp.last() == 'Z' && uid.len() == 36 && r.scan_id@ == scan_id_text(stamp, uid),
            r.scanned_at@.len() > 0 && r.scanned_at@.last() == 'Z',
    {
        let stamp = utc_compact_stamp();
        let uid = uuid_v4_text();
        let scanned_at = now_rfc3339();
        let r = ScanReport::assemble(target, findings, pins, tools, stamp.as_str(), uid.as_str(), scanned_at);
        assert(stamp@.len() > 0 && stamp@.last() == 'Z' && uid@.len() == 36 && r.scan_id@ == scan_id_text(stamp@, uid@));
        r
    }

    /// The most severe level found.
    pub fn max_severity(&self) -> (r: Option<Severity>)
        ensures
            r == self.summary.max_severity,
    {
        self.summary.max_severity
    }

    /// Some finding is at least as severe as `threshold`.
    pub fn fails_threshold(&self, threshold: Severity) -> (r: bool)
        ensures
            r == any_at_least(self.findings@, threshold),
    {
        let n = self.findings.len();
        for i in 0..n
            invariant
                n == self.findings@.len(),
                forall|k: int| 0 <= k < i ==> (#[trigger] self.findings@[k]).severity.spec_rank() < threshold.spec_rank(),
        {
            if self.findings[i].severity.at_least(&threshold) {
                assert(self.findings@[i as int].severity.spec_rank() >= threshold.spec_rank());
                return true;
            }
        }
        false
    }
}

// ---------------------------------------------------------------------
// Text renderings
// ---------------------------------------------------------------------

/// The name of an optional level, `none` when absent.
pub open spec fn sev_text(o: Option<Severity>) -> Seq<char> {
    match o {
        Some(s) => s.spec_name(),
        None => "none"@,
    }
}

/// `t` padded with spaces to eight characters.
pub open spec fn pad8(t: Seq<char>) -> Seq<char> {
    if t.len() < 8 {
        t + Seq::new((8 - t.len()) as nat, |i: int| ' ')
    } else {
        t
    }
}

/// `p` followed by the human summary lines of one finding.
pub open spec fn human_line_onto(p: Seq<char>, f: Finding) -> Seq<char> {
    p + "  "@ + f.id@ + "  ["@ + pad8(f.severity.spec_name()) + "]  "@ + f.detector@ + "  "@ + f.tool_name@
        + "  "@ + f.title@ + "\n"@ + "    path: "@ + f.json_path@ + "\n"@
}

/// `p` followed by the human summary lines of the first `n` findings.
pub open spec fn human_lines_onto(p: Seq<char>, fs: Seq<Finding>, n: int) -> Seq<char>
    decreases n,
{
    if n <= 0 || n > fs.len() {
        p
    } else {
        human_line_onto(human_lines_onto(p, fs, n - 1), fs[n - 1])
    }
}

/// The server name of a report, or its transport when it has none.
pub open spec fn shown_name(t: TargetInfo) -> Seq<char> {
    match t.server_name {
        Some(n) => n@,
        None => t.transport@,
    }
}

/// The short terminal summary of a report.
pub open spec fn human_text(r: ScanReport) -> Seq<char> {
    let name = shown_name(r.target);
    if r.findings@.len() == 0 {
        "CLEAN  "@ + name + "  tools="@ + decimal(r.summary.tools as nat) + "  hash="@ + r.summary.server_hash@
            + "\n"@
    } else {
        let head = "FINDINGS  "@ + name + "  tools="@ + decimal(r.summary.tools as nat) + "  findings="@ + decimal(
            r.summary.findings as nat,
        ) + "  max="@ + sev_text(r.summary.max_severity) + "\n"@;
        human_lines_onto(head, r.findings@, r.findings@.len() as int) + "hash="@ + r.summary.server_hash@
            + "  (use --json or -o for full report)\n"@
    }
}

/// The two lines that the human summary gives finding `f`:
/// `  <id>  [<severity>]  <detector>  <tool>  <title>` and `    path: <path>`.
pub open spec fn finding_lines(f: Finding) -> Seq<char> {
    "  "@ + f.id@ + "  ["@ + pad8(f.severity.spec_name()) + "]  "@ + f.detector@ + "  "@ + f.tool_name@ + "  "@
        + f.title@ + "\n"@ + "    path: "@ + f.json_path@ + "\n"@
}

/// Total length of the lines of the first `n` findings.
pub open spec fn finding_lines_len(fs: Seq<Finding>, n: int) -> int
    decreases n,
{
    if n <= 0 || n > fs.len() {
        0
    } else {
        finding_lines_len(fs, n - 1) + finding_lines(fs[n - 1]).len()
    }
}

/// The first line of the human summary of a report with findings.
pub open spec fn findings_header(r: ScanReport) -> Seq<char> {
    "FINDINGS  "@ + shown_name(r.target) + "  tools="@ + decimal(r.summary.tools as nat) + "  findings="@ + decimal(
        r.summary.findings as nat,
    ) + "  max="@ + sev_text(r.summary.max_severity) + "\n"@
}

/// The last line of the human summary of a report with findings.
pub open spec fn findings_footer(r: ScanReport) -> Seq<char> {
    "hash="@ + r.summary.server_hash@ + "  (use --json or -o for full report)\n"@
}

#[verifier::rlimit(40)]
proof fn lemma_lines_onto(p: Seq<char>, fs: Seq<Finding>, n: int)
    requires
        0 <= n <= fs.len(),
    ensures
        human_lines_onto(p, fs, n).len() == p.len() + finding_lines_len(fs, n),
        human_lines_onto(p, fs, n).subrange(0, p.len() as int) == p,
        forall|k: int| 0 <= k < n ==> #[trigger] human_lines_onto(p, fs, n).subrange(
            p.len() + finding_lines_len(fs, k),
            p.len() + finding_lines_len(fs, k + 1),
        ) == finding_lines(fs[k]),
    decreases n,
{
    if n == 0 {
        assert(p.subrange(0, p.len() as int) =~= p);
    } else {
        lemma_lines_onto(p, fs, n - 1);
        lemma_lines_len_mono(fs, 0, n - 1);
        let a = human_lines_onto(p, fs, n - 1);
        let x = finding_lines(fs[n - 1]);
        let b = human_lines_onto(p, fs, n);
        assert(b =~= a + x);
        lemma_subrange_of_prefix(a, x, 0, p.len() as int);
        assert forall|k: int| 0 <= k < n implies #[trigger] b.subrange(
            p.len() + finding_lines_len(fs, k),
            p.len() + finding_lines_len(fs, k + 1),
        ) == finding_lines(fs[k]) by {
            if k < n - 1 {
                lemma_lines_len_mono(fs, k + 1, n - 1);
                lemma_lines_len_mono(fs, 0, k);
                lemma_subrange_of_prefix(a, x, p.len() + finding_lines_len(fs, k), p.len() + finding_lines_len(fs, k + 1));
            } else {
                assert((a + x).subrange(a.len() as int, (a + x).len() as int) =~= x);
            }
        }
    }
}

proof fn lemma_lines_len_mono(fs: Seq<Finding>, a: int, b: int)
    requires
        0 <= a <= b <= fs.len(),
    ensures
        0 <= finding_lines_len(fs, a) <= finding_lines_len(fs, b),
    decreases b,
{
    if a < b {
        lemma_lines_len_mono(fs, a, b - 1);
    } else if b > 0 {
        lemma_lines_len_mono(fs, b - 1, b - 1);
    }
}

proof fn lemma_subrange_of_prefix(a: Seq<char>, x: Seq<char>, i: int, j: int)
    requires
        0 <= i <= j <= a.len(),
    ensures
        (a + x).subrange(i, j) == a.subrange(i, j),
{
    assert((a + x).subrange(i, j) =~= a.subrange(i, j));
}

/// The human summary of a report with findings is its header line, then the
/// two lines of every finding, one after another in report order, then the
/// hash line: nothing is left out and nothing is added, so it holds exactly
/// as many finding lines as the report has findings.
pub proof fn lemma_human_lists_every_finding(r: ScanReport)
    requires
        r.findings@.len() > 0,
    ensures
        ({
            let t = human_text(r);
            let h = findings_header(r).len() as int;
            let fs = r.findings@;
            &&& t.len() == h + finding_lines_len(fs, fs.len() as int) + findings_footer(r).len()
            &&& t.subrange(0, h) == findings_header(r)
            &&& forall|k: int| 0 <= k < fs.len() ==> #[trigger] t.subrange(
                h + finding_lines_len(fs, k),
                h + finding_lines_len(fs, k + 1),
            ) == finding_lines(fs[k])
            &&& t.subrange(h + finding_lines_len(fs, fs.len() as int), t.len() as int) == findings_footer(r)
        }),
{
    let fs = r.findings@;
    let head = findings_header(r);
    let body = human_lines_onto(head, fs, fs.len() as int);
    lemma_lines_onto(head, fs, fs.len() as int);
    lemma_lines_len_mono(fs, 0, fs.len() as int);
    let t = human_text(r);
    assert(t == body + findings_footer(r));
    let h = head.len() as int;
    assert(t.subrange(0, h) =~= body.subrange(0, h));
    assert forall|k: int| 0 <= k < fs.len() implies #[trigger] t.subrange(
        h + finding_lines_len(fs, k),
        h + finding_lines_len(fs, k + 1),
    ) == finding_lines(fs[k]) by {
        lemma_lines_len_mono(fs, k + 1, fs.len() as int);
        lemma_lines_len_mono(fs, 0, k);
        assert(t.subrange(h + finding_lines_len(fs, k), h + finding_lines_len(fs, k + 1)) =~= body.subrange(
            h + finding_lines_len(fs, k),
            h + finding_lines_len(fs, k + 1),
        ));
    }
    assert(t.subrange(h + finding_lines_len(fs, fs.len() as int), t.len() as int) =~= findings_footer(r));
}

/// `|` written as `\|`, for a Markdown table cell.
pub open spec fn escape_pipes(s: Seq<char>) -> Seq<char>
    decreases s.len(),
{
    if s.len() == 0 {
        Seq::empty()
    } else {
        escape_pipes(s.drop_last()) + (if s.last() == '|' {
            seq!['\\', '|']
        } else {
            seq![s.last()]
        })
    }
}

/// Backticks turned into single quotes, for inline code.
pub open spec fn ticks_to_quotes(s: Seq<char>) -> Seq<char> {
    s.map_values(|c: char| if c == '`' { '\'' } else { c })
}

/// `p` followed by the Markdown table row of one finding.
pub open spec fn md_row_onto(p: Seq<char>, f: Finding) -> Seq<char> {
    p + "| "@ + f.id@ + " | "@ + f.severity.spec_name() + " | "@ + f.detector@ + " | `"@ + f.tool_name@ + "` | "@
        + escape_pipes(f.title@) + " |\n"@
}

/// `p` followed by the Markdown section of one finding.
pub open spec fn md_section_onto(p: Seq<char>, f: Finding) -> Seq<char> {
    p + "## "@ + f.id@ + "\n\n"@ + "**"@ + f.title@ + "** ("@ + f.severity.spec_name() + ")\n\n"@ + f.detail@
        + "\n\n"@ + "- technique: "@ + f.technique@ + "\n"@ + "- path: `"@ + f.json_path@ + "`\n"@ + "- snippet: `"@
        + ticks_to_quotes(f.evidence.snippet@) + "`\n"@ + "- remediation: "@ + f.remediation@ + "\n\n"@
}

/// `p` followed by the table rows of the first `n` findings.
pub open spec fn md_rows_onto(p: Seq<char>, fs: Seq<Finding>, n: int) -> Seq<char>
    decreases n,
{
    if n <= 0 || n > fs.len() {
        p
    } else {
        md_row_onto(md_rows_onto(p, fs, n - 1), fs[n - 1])
    }
}

/// `p` followed by the sections of the first `n` findings.
pub open spec fn md_sections_onto(p: Seq<char>, fs: Seq<Finding>, n: int) -> Seq<char>
    decreases n,
{
    if n <= 0 || n > fs.len() {
        p
    } else {
        md_section_onto(md_sections_onto(p, fs, n - 1), fs[n - 1])
    }
}

/// The Markdown header of a report.
pub open spec fn md_head(r: ScanReport) -> Seq<char> {
    "# mcpdoctor scan report\n\n"@ + "- scan_id: `"@ + r.scan_id@ + "`\n"@ + "- proof_class: "@
        + r.target.proof_class.spec_name() + "\n"@ + "- tools: "@ + decimal(r.summary.tools as nat) + "\n"@
        + "- findings: "@ + decimal(r.summary.findings as nat) + "\n"@ + "- max_severity: "@ + sev_text(
        r.summary.max_severity,
    ) + "\n"@ + "- server_hash: `"@ + r.summary.server_hash@ + "`\n\n"@
}

/// The Markdown report.
pub open spec fn markdown_text(r: ScanReport) -> Seq<char> {
    let fs = r.findings@;
    if fs.len() == 0 {
        md_head(r) + "No findings.\n"@
    } else {
        let head = md_head(r) + "| ID | Sev | Detector | Tool | Title |\n"@ + "|----|-----|----------|------|-------|\n"@;
        let table = md_rows_onto(head, fs, fs.len() as int) + "\n"@;
        md_sections_onto(table, fs, fs.len() as int)
    }
}

/// The table row that the Markdown report gives finding `f`.
pub open spec fn md_row(f: Finding) -> Seq<char> {
    "| "@ + f.id@ + " | "@ + f.severity.spec_name() + " | "@ + f.detector@ + " | `"@ + f.tool_name@ + "` | "@
        + escape_pipes(f.title@) + " |\n"@
}

/// The section that the Markdown report gives finding `f`.
pub open spec fn md_section(f: Finding) -> Seq<char> {
    "## "@ + f.id@ + "\n\n"@ + "**"@ + f.title@ + "** ("@ + f.severity.spec_name() + ")\n\n"@ + f.detail@
        + "\n\n"@ + "- technique: "@ + f.technique@ + "\n"@ + "- path: `"@ + f.json_path@ + "`\n"@ + "- snippet: `"@
        + ticks_to_quotes(f.evidence.snippet@) + "`\n"@ + "- remediation: "@ + f.remediation@ + "\n\n"@
}

proof fn lemma_human_lines_flat(p: Seq<char>, fs: Seq<Finding>, n: int)
    requires
        0 <= n <= fs.len(),
    ensures
        human_lines_onto(p, fs, n) == p + fs.take(n).map_values(|f: Finding| finding_lines(f)).flatten(),
    decreases n,
{
    let g = |f: Finding| finding_lines(f);
    if n == 0 {
        assert(fs.take(0).map_values(g) =~= Seq::<Seq<char>>::empty());
        assert(p + Seq::<char>::empty() =~= p);
    } else {
        lemma_human_lines_flat(p, fs, n - 1);
        assert(fs.take(n) =~= fs.take(n - 1).push(fs[n - 1]));
        fs.take(n - 1).lemma_push_map_commute(g, fs[n - 1]);
        fs.take(n - 1).map_values(g).lemma_flatten_push(g(fs[n - 1]));
        assert(human_lines_onto(p, fs, n) =~= p + fs.take(n).map_values(g).flatten());
    }
}

proof fn lemma_md_rows_flat(p: Seq<char>, fs: Seq<Finding>, n: int)
    requires
        0 <= n <= fs.len(),
    ensures
        md_rows_onto(p, fs, n) == p + fs.take(n).map_values(|f: Finding| md_row(f)).flatten(),
    decreases n,
{
    let g = |f: Finding| md_row(f);
    if n == 0 {
        assert(fs.take(0).map_values(g) =~= Seq::<Seq<char>>::empty());
        assert(p + Seq::<char>::empty() =~= p);
    } else {
        lemma_md_rows_flat(p, fs, n - 1);
        assert(fs.take(n) =~= fs.take(n - 1).push(fs[n - 1]));
        fs.take(n - 1).lemma_push_map_commute(g, fs[n - 1]);
        fs.take(n - 1).map_values(g).lemma_flatten_push(g(fs[n - 1]));
        assert(md_rows_onto(p, fs, n) =~= p + fs.take(n).map_values(g).flatten());
    }
}

#[verifier::rlimit(40)]
proof fn lemma_md_sections_flat(p: Seq<char>, fs: Seq<Finding>, n: int)
    requires
        0 <= n <= fs.len(),
    ensures
        md_sections_onto(p, fs, n) == p + fs.take(n).map_values(|f: Finding| md_section(f)).flatten(),
    decreases n,
{
    let g = |f: Finding| md_section(f);
    if n == 0 {
        assert(fs.take(0).map_values(g) =~= Seq::<Seq<char>>::empty());
        assert(p + Seq::<char>::empty() =~= p);
    } else {
        lemma_md_sections_flat(p, fs, n - 1);
        assert(md_sections_onto(p, fs, n) =~= md_sections_onto(p, fs, n - 1) + md_section(fs[n - 1]));
        assert(fs.take(n) =~= fs.take(n - 1).push(fs[n - 1]));
        fs.take(n - 1).lemma_push_map_commute(g, fs[n - 1]);
        fs.take(n - 1).map_values(g).lemma_flatten_push(g(fs[n - 1]));
        assert(md_sections_onto(p, fs, n) =~= p + fs.take(n).map_values(g).flatten());
    }
}

/// The human summary of a report with findings is its header line, the
/// lines of every finding in report order, and its hash line.
pub proof fn lemma_human_text_is_every_finding(r: ScanReport)
    requires
        r.findings@.len() > 0,
    ensures
        human_text(r) == findings_header(r) + r.findings@.map_values(|f: Finding| finding_lines(f)).flatten()
            + findings_footer(r),
{
    let fs = r.findings@;
    lemma_human_lines_flat(findings_header(r), fs, fs.len() as int);
    assert(fs.take(fs.len() as int) =~= fs);
    assert(human_text(r) =~= findings_header(r) + fs.map_values(|f: Finding| finding_lines(f)).flatten()
        + findings_footer(r));
}

/// The Markdown report of a report with findings is its header, a table
/// with one row per finding in report order, then one section per finding
/// in report order.
pub proof fn lemma_markdown_is_every_finding(r: ScanReport)
    requires
        r.findings@.len() > 0,
    ensures
        markdown_text(r) == md_head(r) + "| ID | Sev | Detector | Tool | Title |\n"@ + "|----|-----|----------|------|-------|\n"@
            + r.findings@.map_values(|f: Finding| md_row(f)).flatten() + "\n"@
            + r.findings@.map_values(|f: Finding| md_section(f)).flatten(),
{
    let fs = r.findings@;
    let head = md_head(r) + "| ID | Sev | Detector | Tool | Title |\n"@ + "|----|-----|----------|------|-------|\n"@;
    lemma_md_rows_flat(head, fs, fs.len() as int);
    let table = md_rows_onto(head, fs, fs.len() as int) + "\n"@;
    lemma_md_sections_flat(table, fs, fs.len() as int);
    assert(fs.take(fs.len() as int) =~= fs);
    assert(markdown_text(r) =~= md_head(r) + "| ID | Sev | Detector | Tool | Title |\n"@ + "|----|-----|----------|------|-------|\n"@
        + fs.map_values(|f: Finding| md_row(f)).flatten() + "\n"@ + fs.map_values(|f: Finding| md_section(f)).flatten());
}

/// Appends `t` padded to eight characters.
fn push_pad8(out: &mut String, t: &str)
    ensures
        final(out)@ == old(out)@ + pad8(t@),
{
    let ghost start = out@;
    out.append(t);
    let n = t.unicode_len();
    if n < 8 {
        let k = 8 - n;
        for i in 0..k
            invariant
                k == 8 - t@.len(),
                out@ == start + t@ + Seq::new(i as nat, |j: int| ' '),
        {
            push_char(out, ' ');
            assert(start + t@ + Seq::new((i + 1) as nat, |j: int| ' ') =~= start + t@ + Seq::new(i as nat, |j: int| ' ') + seq![' ']);
        }
    } else {
        assert(start + t@ =~= start + pad8(t@));
    }
}

/// Appends `s` with `|` escaped.
fn push_escaped_pipes(out: &mut String, s: &str)
    ensures
        final(out)@ == old(out)@ + escape_pipes(s@),
{
    let ghost start = out@;
    let cs = chars_of(s);
    let n = cs.len();
    assert(cs@.take(0) =~= Seq::<char>::empty());
    for i in 0..n
        invariant
            n == cs@.len(),
            cs@ == s@,
            out@ == start + escape_pipes(cs@.take(i as int)),
    {
        let c = cs[i];
        assert(cs@.take(i + 1).drop_last() =~= cs@.take(i as int));
        if c == '|' {
            push_char(out, '\\');
            push_char(out, '|');
        } else {
            push_char(out, c);
        }
        assert(out@ =~= start + escape_pipes(cs@.take(i + 1)));
    }
    assert(cs@.take(n as int) =~= cs@);
}

/// Appends `s` with backticks turned into quotes.
fn push_ticks_as_quotes(out: &mut String, s: &str)
    ensures
        final(out)@ == old(out)@ + ticks_to_quotes(s@),
{
    let ghost start = out@;
    let cs = chars_of(s);
    let n = cs.len();
    for i in 0..n
        invariant
            n == cs@.len(),
            cs@ == s@,
            out@ == start + ticks_to_quotes(cs@.take(i as int)),
    {
        let c = cs[i];
        if c == '`' {
            push_char(out, '\'');
        } else {
            push_char(out, c);
        }
        assert(ticks_to_quotes(cs@.take(i + 1)) =~= ticks_to_quotes(cs@.take(i as int)).push(
            if c == '`' { '\'' } else { c },
        ));
    }
    assert(cs@.take(n as int) =~= cs@);
}

fn sev_name(o: Option<Severity>) -> (r: &'static str)
    ensures
        r@ == sev_text(o),
{
    match o {
        Some(s) => s.as_str(),
        None => "none",
    }
}

impl ScanReport {
    /// Short terminal-friendly summary (the default human output).
    #[verifier::rlimit(40)]
    pub fn to_human(&self) -> (r: String)
        ensures
            r@ == human_text(*self),
    {
        let name = match &self.target.server_name {
            Some(n) => n.as_str(),
            None => self.target.transport.as_str(),
        };
        let mut out = String::new();
        if self.findings.len() == 0 {
            out.append("CLEAN  ");
            out.append(name);
            out.append("  tools=");
            push_decimal(&mut out, self.summary.tools);
            out.append("  hash=");
            out.append(self.summary.server_hash.as_str());
            out.append("\n");
            return out;
        }
        out.append("FINDINGS  ");
        out.append(name);
        out.append("  tools=");
        push_decimal(&mut out, self.summary.tools);
        out.append("  findings=");
        push_decimal(&mut out, self.summary.findings);
        out.append("  max=");
        out.append(sev_name(self.summary.max_severity));
        out.append("\n");
        let ghost head = out@;
        let n = self.findings.len();
        for i in 0..n
            invariant
                n == self.findings@.len(),
                out@ == human_lines_onto(head, self.findings@, i as int),
        {
            let f = &self.findings[i];
            out.append("  ");
            out.append(f.id.as_str());
            out.append("  [");
            push_pad8(&mut out, f.severity.as_str());
            out.append("]  ");
            out.append(f.detector.as_str());
            out.append("  ");
            out.append(f.tool_name.as_str());
            out.append("  ");
            out.append(f.title.as_str());
            out.append("\n");
            out.append("    path: ");
            out.append(f.json_path.as_str());
            out.append("\n");
        }
        out.append("hash=");
        out.append(self.summary.server_hash.as_str());
        out.append("  (use --json or -o for full report)\n");
        out
    }

    /// The full Markdown report.
    #[verifier::rlimit(40)]
    pub fn to_markdown(&self) -> (r: String)
        ensures
            r@ == markdown_text(*self),
    {
        let mut md = String::new();
        md.append("# mcpdoctor scan report\n\n");
        md.append("- scan_id: `");
        md.append(self.scan_id.as_str());
        md.append("`\n");
        md.append("- proof_class: ");
        md.append(self.target.proof_class.as_str());
        md.append("\n");
        md.append("- tools: ");
        push_decimal(&mut md, self.summary.tools);
        md.append("\n");
        md.append("- findings: ");
        push_decimal(&mut md, self.summary.findings);
        md.append("\n");
        md.append("- max_severity: ");
        md.append(sev_name(self.summary.max_severity));
        md.append("\n");
        md.append("- server_hash: `");
        md.append(self.summary.server_hash.as_str());
        md.append("`\n\n");
        assert(md@ =~= md_head(*self));
        if self.findings.len() == 0 {
            md.append("No findings.\n");
            return md;
        }
        md.append("| ID | Sev | Detector | Tool | Title |\n");
        md.append("|----|-----|----------|------|-------|\n");
        let ghost head = md@;
        let n = self.findings.len();
        for i in 0..n
            invariant
                n == self.findings@.len(),
                md@ == md_rows_onto(head, self.findings@, i as int),
        {
            let f = &self.findings[i];
            md.append("| ");
            md.append(f.id.as_str());
            md.append(" | ");
            md.append(f.severity.as_str());
            md.append(" | ");
            md.append(f.detector.as_str());
            md.append(" | `");
            md.append(f.tool_name.as_str());
            md.append("` | ");
            push_escaped_pipes(&mut md, f.title.as_str());
            md.append(" |\n");
        }
        md.append("\n");
        let ghost mid = md@;
        for i in 0..n
            invariant
                n == self.findings@.len(),
                md@ == md_sections_onto(mid, self.findings@, i as int),
        {
            let f = &self.findings[i];
            md.append("## ");
            md.append(f.id.as_str());
            md.append("\n\n");
            md.append("**");
            md.append(f.title.as_str());
            md.append("** (");
            md.append(f.severity.as_str());
            md.append(")\n\n");
            md.append(f.detail.as_str());
            md.append("\n\n");
            md.append("- technique: ");
            md.append(f.technique.as_str());
            md.append("\n");
            md.append("- path: `");
            md.append(f.json_path.as_str());
            md.append("`\n");
            md.append("- snippet: `");
            push_ticks_as_quotes(&mut md, f.evidence.snippet.as_str());
            md.append("`\n");
            md.append("- remediation: ");
            md.append(f.remediation.as_str());
            md.append("\n\n");
        }
        md
    }
}

/// The kind of evidence a scan rests on: a captured list is a fixture,
/// anything else a live local server.
pub fn proof_class_for_transport(from_list: bool, has_command: bool) -> (r: ProofClass)
    ensures
        r == (if from_list { ProofClass::Fixture } else { ProofClass::Local }),
{
    if from_list {
        ProofClass::Fixture
    } else {
        ProofClass::Local
    }
}


/// Some finding reaches a threshold exactly when the most severe level of
/// the findings does: the exit status and the summary agree.
pub proof fn lemma_threshold_is_max(fs: Seq<Finding>, t: Severity)
    ensures
        any_at_least(fs, t) <==> (max_severity_of(fs) matches Some(m) && m.spec_rank() >= t.spec_rank()),
{
    lemma_max_sev(fs, fs.len() as int);
    if any_at_least(fs, t) {
        let i = choose|i: int| 0 <= i < fs.len() && (#[trigger] fs[i]).severity.spec_rank() >= t.spec_rank();
        assert(fs[i].severity.spec_rank() >= t.spec_rank());
    }
    match max_severity_of(fs) {
        Some(m) => if m.spec_rank() >= t.spec_rank() {
            let i = choose|i: int| 0 <= i < fs.len() && (#[trigger] fs[i]).severity == m;
            assert(fs[i].severity.spec_rank() >= t.spec_rank());
        },
        None => {},
    }
}

} // verus!
