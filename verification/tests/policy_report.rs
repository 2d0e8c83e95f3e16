use specgate::policy::batch::{parse_batch_output, parse_usize_exec, split_whitespace};
use specgate::policy::compensate::{dependency_edges_from_specs, find_compensation_candidates};
use specgate::policy::config_diff::classify_config_changes;
use specgate::policy::render::render_policy_diff_human;
use specgate::policy::report::{
    apply_compensation, apply_policy_diff_options, assemble_policy_diff_report, derive_net_classification,
    derive_net_classification_with_compensation, derive_policy_diff_exit, summarize_policy_diffs, PolicyDiffOptions,
};
use specgate::policy::types::{
    ChangeClassification, ChangeScope, CompensationResult, ConfigFieldChange, DependencyEdge, FieldChange,
    ModulePolicyDiff, PolicyDiffErrorEntry, PolicyDiffExit,
};
use specgate::spec::config::SpecConfig;
use specgate::spec::types::{Boundaries, SpecFile};

fn change(module: &str, field: &str, classification: ChangeClassification, detail: &str) -> FieldChange {
    FieldChange {
        module: module.to_string(),
        spec_path: format!("modules/{module}.spec.yml"),
        scope: ChangeScope::Boundaries,
        field: field.to_string(),
        classification,
        before: None,
        after: None,
        detail: detail.to_string(),
    }
}

fn diff(module: &str, changes: Vec<FieldChange>) -> ModulePolicyDiff {
    ModulePolicyDiff { module: module.to_string(), spec_path: format!("modules/{module}.spec.yml"), changes }
}

fn edge(importer: &str, provider: &str) -> DependencyEdge {
    DependencyEdge { importer: importer.to_string(), provider: provider.to_string() }
}

fn spec_with_allow(module: &str, allow: Option<Vec<&str>>) -> SpecFile {
    let boundaries = Boundaries {
        allow_imports_from: allow.map(|v| v.into_iter().map(|s| s.to_string()).collect()),
        ..Boundaries::default()
    };
    SpecFile {
        version: "2.2".to_string(),
        module: module.to_string(),
        package: None,
        import_id: None,
        import_ids: Vec::new(),
        description: None,
        boundaries: Some(boundaries),
        constraints: Vec::new(),
        spec_path: None,
    }
}

#[test]
fn dependency_edges_follow_allow_imports_from() {
    let specs = vec![
        spec_with_allow("app", Some(vec!["core", "ui"])),
        spec_with_allow("core", None),
        spec_with_allow("ui", Some(vec!["core"])),
    ];
    let edges = dependency_edges_from_specs(&specs);
    assert_eq!(edges, vec![edge("app", "core"), edge("app", "ui"), edge("ui", "core")]);
}

#[test]
fn single_partner_narrowing_offsets_widening() {
    let w = vec![change("app", "allow_imports_from", ChangeClassification::Widening, "")];
    let n = vec![change("core", "allow_imports_from", ChangeClassification::Narrowing, "")];
    let c = find_compensation_candidates(&w, &n, &[edge("app", "core")]);
    assert_eq!(c.len(), 1);
    assert_eq!(c[0].result, CompensationResult::Offset);
    assert_eq!(c[0].widening.module, "app");
    assert_eq!(c[0].narrowing.module, "core");
    assert_eq!(c[0].relationship, edge("app", "core"));
}

#[test]
fn compensation_needs_edge_same_field_and_other_module() {
    let w = vec![
        change("app", "allow_imports_from", ChangeClassification::Widening, ""),
        change("core", "allow_imports_from", ChangeClassification::Widening, ""),
        change("ui", "never_imports", ChangeClassification::Widening, ""),
    ];
    let n = vec![change("core", "allow_imports_from", ChangeClassification::Narrowing, "")];
    assert!(find_compensation_candidates(&w, &n, &[]).is_empty());
    let c = find_compensation_candidates(&w, &n, &[edge("core", "app"), edge("ui", "core")]);
    assert_eq!(c.len(), 1);
    assert_eq!(c[0].widening.module, "app");
    assert_eq!(c[0].relationship, edge("core", "app"));
}

#[test]
fn narrowing_with_several_partners_is_ambiguous() {
    let w = vec![
        change("app", "allow_imports_from", ChangeClassification::Widening, ""),
        change("ui", "allow_imports_from", ChangeClassification::Widening, ""),
    ];
    let n = vec![change("core", "allow_imports_from", ChangeClassification::Narrowing, "")];
    let c = find_compensation_candidates(&w, &n, &[edge("app", "core"), edge("ui", "core")]);
    assert_eq!(c.len(), 2);
    assert!(c.iter().all(|x| x.result == CompensationResult::Ambiguous));
}

#[test]
fn widening_also_claimed_by_an_ambiguous_narrowing_is_ambiguous() {
    let w = vec![
        change("a", "f", ChangeClassification::Widening, ""),
        change("c", "f", ChangeClassification::Widening, ""),
    ];
    let n = vec![
        change("b", "f", ChangeClassification::Narrowing, ""),
        change("d", "f", ChangeClassification::Narrowing, ""),
    ];
    let c = find_compensation_candidates(&w, &n, &[edge("b", "a"), edge("d", "a"), edge("d", "c")]);
    assert_eq!(c.len(), 3);
    assert!(c.iter().filter(|x| x.widening.module == "a").all(|x| x.result == CompensationResult::Ambiguous));
    assert!(c.iter().all(|x| x.result == CompensationResult::Ambiguous));
}

#[test]
fn widening_offset_twice_becomes_ambiguous() {
    let w = vec![change("app", "allow_imports_from", ChangeClassification::Widening, "")];
    let n = vec![
        change("core", "allow_imports_from", ChangeClassification::Narrowing, ""),
        change("ui", "allow_imports_from", ChangeClassification::Narrowing, ""),
    ];
    let c = find_compensation_candidates(&w, &n, &[edge("app", "core"), edge("app", "ui")]);
    assert_eq!(c.len(), 2);
    assert!(c.iter().all(|x| x.result == CompensationResult::Ambiguous));
}

#[test]
fn summary_counts_classifications_modules_and_limitations() {
    let diffs = vec![
        diff("app", vec![
            change("app", "a", ChangeClassification::Widening, "x"),
            change("app", "b", ChangeClassification::Narrowing, "path_coverage_unbounded_mvp: no listing"),
        ]),
        diff("app", vec![change("app", "c", ChangeClassification::StructuralChange, "")]),
        diff("core", vec![change("core", "d", ChangeClassification::Narrowing, "")]),
    ];
    let s = summarize_policy_diffs(&diffs);
    assert_eq!(s.modules_changed, 2);
    assert_eq!(s.widening_changes, 1);
    assert_eq!(s.narrowing_changes, 2);
    assert_eq!(s.structural_changes, 1);
    assert!(s.has_widening);
    assert_eq!(s.limitations, vec!["path_coverage_unbounded_mvp".to_string()]);
    assert_eq!(derive_net_classification(&s), ChangeClassification::Widening);
}

fn config_change(field: &str, classification: ChangeClassification) -> ConfigFieldChange {
    ConfigFieldChange { field_path: field.to_string(), classification, before: "a".to_string(), after: "b".to_string() }
}

#[test]
fn assembled_report_counts_config_changes_and_sorts() {
    let diffs = vec![
        diff("ui", vec![change("ui", "x", ChangeClassification::Narrowing, "")]),
        diff("app", vec![change("app", "y", ChangeClassification::Narrowing, "")]),
    ];
    let report = assemble_policy_diff_report(
        "main".to_string(),
        "HEAD".to_string(),
        diffs,
        Vec::new(),
        vec![config_change("telemetry", ChangeClassification::StructuralChange), config_change(
            "exclude",
            ChangeClassification::Widening,
        )],
    );
    assert_eq!(report.diffs[0].module, "app");
    assert_eq!(report.summary.narrowing_changes, 2);
    assert_eq!(report.summary.widening_changes, 1);
    assert_eq!(report.summary.structural_changes, 1);
    assert!(report.summary.has_widening);
    assert_eq!(report.net_classification, ChangeClassification::Widening);
    assert_eq!(report.config_changes[0].field_path, "exclude");
    assert_eq!(derive_policy_diff_exit(&report), PolicyDiffExit::Widening);
}

#[test]
fn report_with_load_errors_drops_diffs_and_exits_with_runtime_error() {
    let report = assemble_policy_diff_report(
        "main".to_string(),
        "HEAD".to_string(),
        vec![diff("app", vec![change("app", "y", ChangeClassification::Widening, "")])],
        vec![PolicyDiffErrorEntry { code: "policy.spec_parse_error".to_string(), message: "bad".to_string(), spec_path: None }],
        vec![config_change("exclude", ChangeClassification::Widening)],
    );
    assert!(report.diffs.is_empty());
    assert!(report.config_changes.is_empty());
    assert_eq!(report.summary.widening_changes, 0);
    assert!(!report.summary.has_widening);
    assert_eq!(report.net_classification, ChangeClassification::StructuralChange);
    assert_eq!(derive_policy_diff_exit(&report), PolicyDiffExit::RuntimeError);
}

#[test]
fn compensation_turns_offset_widening_into_narrowing_net() {
    let diffs = vec![
        diff("app", vec![change("app", "allow_imports_from", ChangeClassification::Widening, "")]),
        diff("core", vec![change("core", "allow_imports_from", ChangeClassification::Narrowing, "")]),
    ];
    let mut report = assemble_policy_diff_report("main".to_string(), "HEAD".to_string(), diffs, Vec::new(), Vec::new());
    assert_eq!(report.net_classification, ChangeClassification::Widening);
    let head_specs = vec![spec_with_allow("app", Some(vec!["core"])), spec_with_allow("core", None)];
    apply_policy_diff_options(&mut report, &PolicyDiffOptions { cross_file_compensation: false }, &head_specs);
    assert!(report.compensations.is_empty());
    assert_eq!(report.net_classification, ChangeClassification::Widening);
    apply_compensation(&mut report, &head_specs);
    assert_eq!(report.compensations.len(), 1);
    assert_eq!(report.compensations[0].result, CompensationResult::Offset);
    assert_eq!(report.net_classification, ChangeClassification::Narrowing);
    assert_eq!(derive_net_classification_with_compensation(&report), ChangeClassification::Narrowing);
    assert_eq!(derive_policy_diff_exit(&report), PolicyDiffExit::Clean);
}

#[test]
fn human_rendering_groups_changes_by_classification() {
    let diffs = vec![diff("app", vec![
        change("app", "allow_imports_from", ChangeClassification::Widening, "added core"),
        change("app", "never_imports", ChangeClassification::Narrowing, "added ui"),
    ])];
    let mut report = assemble_policy_diff_report("main".to_string(), "HEAD".to_string(), diffs, Vec::new(), vec![
        config_change("exclude", ChangeClassification::Widening),
    ]);
    let text = render_policy_diff_human(&mut report);
    let expected = "Policy diff: base=main head=HEAD\n\nWIDENING (1)\n  - module=app field=allow_imports_from detail=added core\n\nNARROWING (1)\n  - module=app field=never_imports detail=added ui\n\nSTRUCTURAL (0)\n\nConfig changes (specgate.config.yml):\n  WIDENING: exclude: a -> b\n\nSummary: modules_changed=1 widening=2 narrowing=1 structural=0 net=WIDENING";
    assert_eq!(text, expected);
}

#[test]
fn human_rendering_lists_errors() {
    let mut report = assemble_policy_diff_report("a".to_string(), "b".to_string(), Vec::new(), vec![
        PolicyDiffErrorEntry { code: "git.x".to_string(), message: "boom".to_string(), spec_path: Some("m.spec.yml".to_string()) },
    ], Vec::new());
    let text = render_policy_diff_human(&mut report);
    assert!(text.ends_with("Summary: modules_changed=0 widening=0 narrowing=0 structural=0 net=STRUCTURAL\n\nErrors: 1\n  - git.x m.spec.yml boom"));
}

#[test]
fn identical_configs_have_no_changes() {
    let config = SpecConfig { exclude: vec!["dist".to_string()], ..SpecConfig::default() };
    assert!(classify_config_changes(&config, &config).is_empty());
}

#[test]
fn reversed_config_comparison_flips_classification() {
    let base = SpecConfig::default();
    let mut head = SpecConfig::default();
    head.exclude.push("dist".to_string());
    head.strict_ownership = !base.strict_ownership;
    let forward = classify_config_changes(&base, &head);
    let backward = classify_config_changes(&head, &base);
    assert_eq!(forward.len(), backward.len());
    for f in &forward {
        let flipped = match f.classification {
            ChangeClassification::Widening => ChangeClassification::Narrowing,
            ChangeClassification::Narrowing => ChangeClassification::Widening,
            ChangeClassification::StructuralChange => ChangeClassification::StructuralChange,
        };
        assert!(backward.iter().any(|b| b.field_path == f.field_path
            && b.classification == flipped
            && b.before == f.after
            && b.after == f.before));
    }
    let exclude = forward.iter().find(|c| c.field_path == "exclude").expect("exclude change");
    assert_eq!(exclude.classification, ChangeClassification::Widening);
    assert_eq!(exclude.before, "<absent>");
    assert_eq!(exclude.after, "dist");
}

#[test]
fn batch_output_yields_blobs_and_missing_objects() {
    let mut raw: Vec<u8> = Vec::new();
    raw.extend_from_slice(b"0123abcd blob 5\0hello\0");
    raw.extend_from_slice(b"main:b.spec.yml missing\0");
    let paths = vec!["a.spec.yml".to_string(), "b.spec.yml".to_string()];
    let blobs = parse_batch_output("main", &paths, &raw).expect("parsed");
    assert_eq!(blobs, vec![Some(b"hello".to_vec()), None]);
}

#[test]
fn batch_output_errors_name_the_problem() {
    let paths = vec!["a.spec.yml".to_string()];
    let err = parse_batch_output("main", &paths, b"oid blob 5").unwrap_err();
    assert_eq!(err.code(), "git.batch_parse_error");
    assert_eq!(err.message(), "truncated git cat-file output while reading header for main:a.spec.yml");
    let err = parse_batch_output("main", &paths, b"oid tree 5\0").unwrap_err();
    assert_eq!(err.message(), "expected blob for main:a.spec.yml, got 'tree' (oid tree 5)");
    let err = parse_batch_output("main", &paths, b"oid blob x\0").unwrap_err();
    assert_eq!(err.message(), "invalid blob size in header for main:a.spec.yml: oid blob x");
    let err = parse_batch_output("main", &paths, b"oid blob\0").unwrap_err();
    assert_eq!(err.message(), "malformed cat-file header for main:a.spec.yml: oid blob");
    let err = parse_batch_output("main", &paths, b"oid blob 9\0abc\0").unwrap_err();
    assert_eq!(err.message(), "truncated git cat-file output while reading blob for main:a.spec.yml");
    let err = parse_batch_output("main", &paths, b"oid blob 2\0abc").unwrap_err();
    assert_eq!(err.message(), "missing NUL separator after blob for main:a.spec.yml");
    let err = parse_batch_output("main", &paths, b"\xff\0").unwrap_err();
    assert_eq!(err.message(), "non-UTF-8 header in git cat-file output for main:a.spec.yml");
}

#[test]
fn sizes_parse_like_usize_from_str() {
    assert_eq!(parse_usize_exec("42"), Some(42));
    assert_eq!(parse_usize_exec("+7"), Some(7));
    assert_eq!(parse_usize_exec(""), None);
    assert_eq!(parse_usize_exec("+"), None);
    assert_eq!(parse_usize_exec("-1"), None);
    assert_eq!(parse_usize_exec("1a"), None);
    assert_eq!(parse_usize_exec("99999999999999999999999"), None);
}

#[test]
fn whitespace_split_drops_empty_fields() {
    assert_eq!(split_whitespace("  a\tbc  d "), vec!["a".to_string(), "bc".to_string(), "d".to_string()]);
    assert!(split_whitespace("   ").is_empty());
}
