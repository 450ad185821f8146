use mcpdoctor::cli::exit_for_findings;
use mcpdoctor::report::{proof_class_for_transport, ScanReport};
use mcpdoctor::types::{Confidence, Evidence, Finding, ProofClass, Severity, TargetInfo, ToolPins};

fn finding(id: &str, sev: Severity, title: &str, snippet: &str) -> Finding {
    Finding {
        id: id.into(),
        detector: "D01".into(),
        technique: "T1".into(),
        owasp: vec!["MCP03:2025".into()],
        atlas: vec![],
        severity: sev,
        confidence: Confidence::High,
        tool_name: "add".into(),
        json_path: "$.tools[0].description".into(),
        title: title.into(),
        detail: "Detail.".into(),
        evidence: Evidence { snippet: snippet.into(), snippet_hash: "sha256:00".into(), matched_rules: vec![] },
        remediation: "Fix it.".into(),
        references: vec![],
    }
}

fn target(name: Option<&str>) -> TargetInfo {
    TargetInfo {
        transport: "offline".into(),
        server_name: name.map(|s| s.to_string()),
        server_version: None,
        command: None,
        args: vec![],
        proof_class: ProofClass::Fixture,
    }
}

fn pins() -> ToolPins {
    ToolPins {
        server_hash: "sha256:abc".into(),
        tools: vec![],
        command: None,
        args: vec![],
        pinned_at: None,
        server_name: None,
    }
}

fn report(findings: Vec<Finding>) -> ScanReport {
    ScanReport::assemble(
        target(Some("calc")),
        findings,
        pins(),
        vec![],
        "20250101T000000Z",
        "0123abcd-0000-4000-8000-000000000000",
        "2025-01-01T00:00:00Z".into(),
    )
}

#[test]
fn assemble_sets_id_and_summary() {
    let r = report(vec![
        finding("F-001", Severity::Low, "a", "s"),
        finding("F-002", Severity::High, "b", "s"),
        finding("F-003", Severity::Medium, "c", "s"),
    ]);
    assert_eq!(r.scan_id, "20250101T000000Z_0123abcd");
    assert_eq!(r.schema_version, "0.1.0");
    assert_eq!(r.summary.findings, 3);
    assert_eq!(r.summary.tools, 0);
    assert_eq!(r.summary.max_severity, Some(Severity::High));
    assert_eq!(r.max_severity(), Some(Severity::High));
    assert_eq!(r.summary.server_hash, "sha256:abc");
}

#[test]
fn new_report_has_random_id() {
    let r = ScanReport::new(target(None), vec![], pins(), vec![]);
    assert_eq!(r.scan_id.len(), 16 + 1 + 8);
    assert_eq!(r.scan_id.as_bytes()[16], b'_');
    assert_eq!(r.summary.max_severity, None);
}

#[test]
fn threshold_and_exit_code() {
    let r = report(vec![finding("F-001", Severity::Medium, "a", "s")]);
    assert!(r.fails_threshold(Severity::Medium));
    assert!(!r.fails_threshold(Severity::High));
    assert_eq!(exit_for_findings(&r, "high").unwrap(), 0);
    assert_eq!(exit_for_findings(&r, "MEDIUM").unwrap(), 2);
    assert_eq!(exit_for_findings(&r, "loud").unwrap_err().message(), "invalid --fail-on loud");
}

#[test]
fn human_clean_summary() {
    let r = report(vec![]);
    assert_eq!(r.to_human(), "CLEAN  calc  tools=0  hash=sha256:abc\n");
}

#[test]
fn human_findings_summary() {
    let r = report(vec![finding("F-001", Severity::High, "Bad", "s")]);
    assert_eq!(
        r.to_human(),
        "FINDINGS  calc  tools=0  findings=1  max=high\n  F-001  [high    ]  D01  add  Bad\n    path: $.tools[0].description\nhash=sha256:abc  (use --json or -o for full report)\n"
    );
}

#[test]
fn markdown_escapes_pipes_and_backticks() {
    let r = report(vec![finding("F-001", Severity::Critical, "a|b", "x`y")]);
    let md = r.to_markdown();
    assert!(md.starts_with("# mcpdoctor scan report\n\n- scan_id: `20250101T000000Z_0123abcd`\n- proof_class: fixture\n- tools: 0\n- findings: 1\n- max_severity: critical\n- server_hash: `sha256:abc`\n\n"));
    assert!(md.contains("| F-001 | critical | D01 | `add` | a\\|b |\n"));
    assert!(md.contains("- snippet: `x'y`\n"));
    assert!(md.contains("## F-001\n\n**a|b** (critical)\n\nDetail.\n\n- technique: T1\n"));
    assert!(md.ends_with("- remediation: Fix it.\n\n"));
}

#[test]
fn markdown_without_findings() {
    let r = report(vec![]);
    assert!(r.to_markdown().ends_with("- max_severity: none\n- server_hash: `sha256:abc`\n\nNo findings.\n"));
}

#[test]
fn proof_class_by_transport() {
    assert_eq!(proof_class_for_transport(true, false), ProofClass::Fixture);
    assert_eq!(proof_class_for_transport(false, true), ProofClass::Local);
}
