use mcpdoctor::cli::{
    detector_catalog, looks_like_list_path, parse_env, pick_source, preprocess_argv, resolve_target, CliError,
    ScanSource,
};

fn argv(v: &[&str]) -> Vec<String> {
    v.iter().map(|s| s.to_string()).collect()
}

#[test]
fn preprocess_inserts_scan_for_json_path() {
    let raw = argv(&["mcpdoctor", "fixtures/t3_line_jump.json", "--trusted"]);
    let out = preprocess_argv(raw, &[false, false, false]);
    assert_eq!(out[1], "scan");
    assert_eq!(out[2], "fixtures/t3_line_jump.json");
    assert_eq!(out[3], "--trusted");
}

#[test]
fn preprocess_multi_for_two_json_paths() {
    let raw = argv(&["mcpdoctor", "a.json", "b.json", "--trusted"]);
    let out = preprocess_argv(raw, &[false, false, false, false]);
    assert_eq!(out[1], "multi");
    assert_eq!(out[2], "a.json");
    assert_eq!(out[3], "b.json");
    assert_eq!(out[4], "--trusted");
}

#[test]
fn preprocess_leaves_subcommands() {
    let raw = argv(&["mcpdoctor", "detectors"]);
    let out = preprocess_argv(raw, &[false, false]);
    assert_eq!(out[1], "detectors");
}

#[test]
fn preprocess_uses_existing_files_and_leaves_other_words() {
    let out = preprocess_argv(argv(&["mcpdoctor", "tools.txt", "-o", "r.json"]), &[false, true, false, false]);
    assert_eq!(out, argv(&["mcpdoctor", "scan", "tools.txt", "-o", "r.json"]));
    let out = preprocess_argv(argv(&["mcpdoctor", "tools.txt"]), &[false, false]);
    assert_eq!(out, argv(&["mcpdoctor", "tools.txt"]));
    let out = preprocess_argv(argv(&["mcpdoctor", "--json", "a.json"]), &[]);
    assert_eq!(out, argv(&["mcpdoctor", "--json", "a.json"]));
    let out = preprocess_argv(argv(&["mcpdoctor"]), &[]);
    assert_eq!(out, argv(&["mcpdoctor"]));
}

#[test]
fn list_paths() {
    assert!(looks_like_list_path("x.json", false));
    assert!(looks_like_list_path("x", true));
    assert!(!looks_like_list_path("-x.json", true));
    assert!(!looks_like_list_path("x.yaml", false));
}

#[test]
fn resolve_trailing_server_hyphen_args() {
    let (cmd, args) = resolve_target(None, vec![], argv(&["python", "-m", "agent_tooling.sqlite_mcp"])).unwrap();
    assert_eq!(cmd.as_deref(), Some("python"));
    assert_eq!(args, vec!["-m", "agent_tooling.sqlite_mcp"]);
}

#[test]
fn resolve_refuses_both_forms() {
    let r = resolve_target(Some("node".into()), vec![], argv(&["python"]));
    assert!(matches!(r, Err(CliError::BothTargets)));
    let e = r.unwrap_err();
    assert_eq!(e.message(), "use either --command/--arg or trailing `-- prog args`, not both");
    let (cmd, args) = resolve_target(Some("node".into()), argv(&["x"]), vec![]).unwrap();
    assert_eq!(cmd.as_deref(), Some("node"));
    assert_eq!(args, argv(&["x"]));
}

#[test]
fn env_pairs_split_at_first_equals() {
    let v = parse_env(&argv(&["A=1", "B=x=y", "C="])).unwrap();
    assert_eq!(
        v,
        vec![
            ("A".to_string(), "1".to_string()),
            ("B".to_string(), "x=y".to_string()),
            ("C".to_string(), "".to_string())
        ]
    );
    let e = parse_env(&argv(&["A=1", "oops"])).unwrap_err();
    assert_eq!(e.message(), "--env expects KEY=VALUE, got oops");
    let e = parse_env(&argv(&["=v"])).unwrap_err();
    assert_eq!(e.message(), "empty env key in =v");
}

#[test]
fn exactly_one_source() {
    assert!(matches!(pick_source(Some("a.json".into()), None), Ok(ScanSource::List(p)) if p == "a.json"));
    assert!(matches!(pick_source(None, Some("python".into())), Ok(ScanSource::Command(c)) if c == "python"));
    assert!(matches!(pick_source(Some("a".into()), Some("b".into())), Err(CliError::BothSources)));
    let e = pick_source(None, None).unwrap_err();
    assert!(e.message().starts_with("what should I scan?"));
}

#[test]
fn catalog_lists_all_detectors() {
    let rows = detector_catalog();
    assert_eq!(rows.len(), 17);
    assert_eq!(rows[0], ("D01", "T1", "Instruction override language"));
    assert_eq!(rows[16], ("D24", "T2", "Pinned tool removed"));
}
