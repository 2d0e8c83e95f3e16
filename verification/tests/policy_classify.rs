use specgate::policy::classify::{
    candidate_path_prefixes, classify_boundaries_path_change, classify_fail_closed_operations,
    classify_spec_snapshot_pair, classify_spec_snapshot_pair_with_path_coverage, classify_spec_snapshot_pairs,
    static_prefix_from_glob, PathCoverage,
};
use specgate::policy::git::{FailClosedSpecOperation, RenameCopySemanticPairing, SpecSnapshotPair};
use specgate::policy::types::{
    ChangeClassification, ChangeScope, FieldChange, ModulePolicyDiff, PolicyDiffErrorEntry, PolicyDiffReport,
    PolicyDiffSummary, POLICY_DIFF_SCHEMA_VERSION,
};
use specgate::spec::types::{Boundaries, Constraint, JsonValue, Severity, SpecFile, Visibility};

fn change(module: &str, spec_path: &str, classification: ChangeClassification, field: &str, detail: &str) -> FieldChange {
    FieldChange {
        module: module.to_string(),
        spec_path: spec_path.to_string(),
        scope: ChangeScope::Boundaries,
        field: field.to_string(),
        classification,
        before: Some(JsonValue::Str("before".to_string())),
        after: Some(JsonValue::Str("after".to_string())),
        detail: detail.to_string(),
    }
}

#[test]
fn report_uses_schema_version_constant() {
    let report = PolicyDiffReport::new(
        "origin/main".to_string(),
        "HEAD".to_string(),
        Vec::new(),
        PolicyDiffSummary::default(),
        Vec::new(),
    );

    assert_eq!(POLICY_DIFF_SCHEMA_VERSION, "1");
    assert_eq!(report.schema_version, POLICY_DIFF_SCHEMA_VERSION);
}

#[test]
fn deterministic_sort_orders_diffs_changes_and_errors() {
    let mut report = PolicyDiffReport::new(
        "base".to_string(),
        "head".to_string(),
        vec![
            ModulePolicyDiff {
                module: "module/z".to_string(),
                spec_path: "modules/z.spec.yml".to_string(),
                changes: vec![
                    change(
                        "module/z",
                        "modules/z.spec.yml",
                        ChangeClassification::StructuralChange,
                        "boundaries.path",
                        "path changed",
                    ),
                    change(
                        "module/z",
                        "modules/z.spec.yml",
                        ChangeClassification::Widening,
                        "boundaries.allow_imports_from",
                        "added shared/db",
                    ),
                ],
            },
            ModulePolicyDiff {
                module: "module/a".to_string(),
                spec_path: "modules/a.spec.yml".to_string(),
                changes: vec![
                    change(
                        "module/a",
                        "modules/a.spec.yml",
                        ChangeClassification::Narrowing,
                        "boundaries.never_imports",
                        "added api/internal",
                    ),
                    change(
                        "module/a",
                        "modules/a.spec.yml",
                        ChangeClassification::Widening,
                        "boundaries.visibility",
                        "private -> public",
                    ),
                ],
            },
        ],
        PolicyDiffSummary::default(),
        vec![
            PolicyDiffErrorEntry {
                code: "b.code".to_string(),
                message: "z-msg".to_string(),
                spec_path: Some("z/spec.yml".to_string()),
            },
            PolicyDiffErrorEntry {
                code: "a.code".to_string(),
                message: "a-msg".to_string(),
                spec_path: Some("a/spec.yml".to_string()),
            },
        ],
    );

    report.sort_deterministic();

    assert_eq!(report.diffs[0].module, "module/a");
    assert_eq!(report.diffs[1].module, "module/z");
    assert_eq!(report.diffs[0].changes[0].classification, ChangeClassification::Widening);
    assert_eq!(report.diffs[0].changes[1].classification, ChangeClassification::Narrowing);
    assert_eq!(report.errors[0].code, "a.code");
    assert_eq!(report.errors[1].code, "b.code");

    let once = format!("{:?}", report);
    report.sort_deterministic();
    assert_eq!(format!("{:?}", report), once);
}

#[test]
fn classify_fail_closed_operations_downgrades_equivalent_rename_to_structural() {
    let diffs = classify_fail_closed_operations(&[FailClosedSpecOperation::RenameOrCopy {
        status: "R100".to_string(),
        from_path: "modules/app.spec.yml".to_string(),
        to_path: "modules/app-renamed.spec.yml".to_string(),
        semantic_pairing: RenameCopySemanticPairing::Equivalent,
    }]);

    assert_eq!(diffs.len(), 1);
    assert_eq!(diffs[0].changes.len(), 1);
    assert_eq!(diffs[0].changes[0].classification, ChangeClassification::StructuralChange);
    assert!(diffs[0].changes[0].detail.contains("semantically equivalent"));
}

#[test]
fn classify_fail_closed_operations_keeps_inconclusive_rename_fail_closed() {
    let diffs = classify_fail_closed_operations(&[FailClosedSpecOperation::RenameOrCopy {
        status: "R100".to_string(),
        from_path: "modules/app.spec.yml".to_string(),
        to_path: "modules/app-renamed.spec.yml".to_string(),
        semantic_pairing: RenameCopySemanticPairing::Inconclusive,
    }]);

    assert_eq!(diffs.len(), 1);
    assert_eq!(diffs[0].changes.len(), 1);
    assert_eq!(diffs[0].changes[0].classification, ChangeClassification::Widening);
    assert!(diffs[0].changes[0].detail.contains("widening-risk"));
}

#[test]
fn fail_closed_deletion_widens_and_names_module() {
    let diffs = classify_fail_closed_operations(&[
        FailClosedSpecOperation::Deletion { path: "modules/zeta.spec.yml".to_string() },
        FailClosedSpecOperation::Deletion { path: "modules/alpha.spec.yml".to_string() },
    ]);
    assert_eq!(diffs.len(), 2);
    assert_eq!(diffs[0].module, "alpha");
    assert_eq!(diffs[1].module, "zeta");
    assert_eq!(diffs[0].changes[0].detail, "deletion of policy file modules/alpha.spec.yml");
    assert_eq!(diffs[0].changes[0].after, None);
}

fn spec(module: &str, boundaries: Option<Boundaries>, constraints: Vec<Constraint>) -> SpecFile {
    SpecFile {
        version: "2.2".to_string(),
        module: module.to_string(),
        package: None,
        import_id: None,
        import_ids: Vec::new(),
        description: None,
        boundaries,
        constraints,
        spec_path: None,
    }
}

#[test]
fn identical_specs_have_no_diff() {
    let b = spec("app", Some(Boundaries { public_api: vec!["index.ts".to_string()], ..Boundaries::default() }), Vec::new());
    let h = spec("app", Some(Boundaries { public_api: vec!["index.ts".to_string()], ..Boundaries::default() }), Vec::new());
    assert!(classify_spec_snapshot_pair("modules/app.spec.yml", Some(&b), Some(&h)).is_none());
    assert!(classify_spec_snapshot_pair("modules/app.spec.yml", None, None).is_none());
}

#[test]
fn new_and_removed_spec_files() {
    let s = spec("app", None, Vec::new());
    let added = classify_spec_snapshot_pair("modules/app.spec.yml", None, Some(&s)).expect("diff");
    assert_eq!(added.changes[0].classification, ChangeClassification::StructuralChange);
    assert_eq!(added.changes[0].detail, "new policy file");
    assert_eq!(added.changes[0].after, Some(JsonValue::Str("app".to_string())));
    let removed = classify_spec_snapshot_pair("modules/app.spec.yml", Some(&s), None).expect("diff");
    assert_eq!(removed.changes[0].classification, ChangeClassification::Widening);
    assert_eq!(removed.changes[0].detail, "policy file removed");
}

#[test]
fn boundary_set_changes_are_classified_by_direction() {
    let b = spec(
        "app",
        Some(Boundaries {
            public_api: vec!["a.ts".to_string()],
            never_imports: vec!["db".to_string()],
            visibility: Some(Visibility::Private),
            ..Boundaries::default()
        }),
        Vec::new(),
    );
    let h = spec(
        "app",
        Some(Boundaries {
            public_api: vec!["a.ts".to_string(), " b.ts ".to_string()],
            never_imports: Vec::new(),
            visibility: None,
            enforce_in_tests: true,
            ..Boundaries::default()
        }),
        Vec::new(),
    );
    let diff = classify_spec_snapshot_pair("modules/app.spec.yml", Some(&b), Some(&h)).expect("diff");
    let find = |field: &str| diff.changes.iter().find(|c| c.field == field).expect(field);
    let api = find("boundaries.public_api");
    assert_eq!(api.classification, ChangeClassification::Widening);
    assert_eq!(api.detail, "added b.ts");
    let never = find("boundaries.never_imports");
    assert_eq!(never.classification, ChangeClassification::Widening);
    assert_eq!(never.detail, "removed db");
    let vis = find("boundaries.visibility");
    assert_eq!(vis.classification, ChangeClassification::Widening);
    assert_eq!(vis.detail, "visibility changed: Private -> Public");
    assert_eq!(vis.before, Some(JsonValue::Str("private".to_string())));
    let tests = find("boundaries.enforce_in_tests");
    assert_eq!(tests.classification, ChangeClassification::Narrowing);
    assert_eq!(tests.detail, "false -> true");
    assert_eq!(diff.changes.len(), 4);
    assert_eq!(diff.changes[0].classification, ChangeClassification::Widening);
}

#[test]
fn reordered_public_api_is_structural() {
    let b = spec(
        "app",
        Some(Boundaries { public_api: vec!["a.ts".to_string(), "b.ts".to_string()], ..Boundaries::default() }),
        Vec::new(),
    );
    let h = spec(
        "app",
        Some(Boundaries { public_api: vec!["b.ts".to_string(), "a.ts".to_string()], ..Boundaries::default() }),
        Vec::new(),
    );
    let diff = classify_spec_snapshot_pair("modules/app.spec.yml", Some(&b), Some(&h)).expect("diff");
    assert_eq!(diff.changes.len(), 1);
    assert_eq!(diff.changes[0].detail, "order changed");
    assert_eq!(diff.changes[0].classification, ChangeClassification::StructuralChange);
}

#[test]
fn constraint_severity_relaxation_widens() {
    let params = JsonValue::Object(vec![
        ("z".to_string(), JsonValue::Number("1".to_string())),
        ("a".to_string(), JsonValue::Array(vec![JsonValue::Str("x".to_string()), JsonValue::Null])),
    ]);
    let params2 = JsonValue::Object(vec![
        ("z".to_string(), JsonValue::Number("1".to_string())),
        ("a".to_string(), JsonValue::Array(vec![JsonValue::Str("x".to_string()), JsonValue::Null])),
    ]);
    let b = spec(
        "app",
        None,
        vec![Constraint { rule: " no-cycles ".to_string(), params, severity: Severity::Error, message: None }],
    );
    let h = spec(
        "app",
        None,
        vec![Constraint {
            rule: "no-cycles".to_string(),
            params: params2,
            severity: Severity::Warning,
            message: Some("now a warning".to_string()),
        }],
    );
    let diff = classify_spec_snapshot_pair("modules/app.spec.yml", Some(&b), Some(&h)).expect("diff");
    assert_eq!(diff.changes.len(), 2);
    let sev = diff.changes.iter().find(|c| c.field == "constraints.severity").expect("severity");
    assert_eq!(sev.classification, ChangeClassification::Widening);
    assert_eq!(sev.detail, "constraint 'no-cycles::{\"a\":[\"x\",null],\"z\":1}' severity changed");
    let msg = diff.changes.iter().find(|c| c.field == "constraints.message").expect("message");
    assert_eq!(msg.before, Some(JsonValue::Null));
}

#[test]
fn path_change_without_coverage_is_structural() {
    let b = spec("app", Some(Boundaries { path: Some("src/app/**".to_string()), ..Boundaries::default() }), Vec::new());
    let h = spec("app", Some(Boundaries { path: Some("src/**".to_string()), ..Boundaries::default() }), Vec::new());
    let diff = classify_spec_snapshot_pair("modules/app.spec.yml", Some(&b), Some(&h)).expect("diff");
    assert_eq!(diff.changes[0].classification, ChangeClassification::StructuralChange);
    assert_eq!(diff.changes[0].detail, "boundaries.path changed (coverage context unavailable in this call path)");

    let coverage = PathCoverage {
        base_files: Ok(vec!["src/app/a.ts".to_string(), "README.md".to_string()]),
        head_files: Ok(vec!["src/app/a.ts".to_string(), "src/lib/b.ts".to_string()]),
    };
    let diff = classify_spec_snapshot_pair_with_path_coverage(&coverage, "modules/app.spec.yml", Some(&b), Some(&h))
        .expect("diff");
    assert_eq!(diff.changes[0].classification, ChangeClassification::Widening);
    assert_eq!(diff.changes[0].detail, "boundaries.path broadened scoped coverage (1 -> 2 matched files)");
}

#[test]
fn path_coverage_classification_cases() {
    let listing = || PathCoverage {
        base_files: Ok(vec!["src/a/x.ts".to_string(), "src/b/y.ts".to_string()]),
        head_files: Ok(vec!["src/a/x.ts".to_string(), "src/b/y.ts".to_string()]),
    };
    let (c, d) = classify_boundaries_path_change("modules/m.spec.yml", Some("src/**"), Some("src/a/**"), Some(&listing()));
    assert_eq!(c, ChangeClassification::Narrowing);
    assert_eq!(d, "boundaries.path narrowed scoped coverage (2 -> 1 matched files)");
    let (c, _) = classify_boundaries_path_change("modules/m.spec.yml", Some("src/a/**"), Some("src/b/**"), Some(&listing()));
    assert_eq!(c, ChangeClassification::StructuralChange);
    let (c, d) = classify_boundaries_path_change("modules/m.spec.yml", Some("src/**/*.ts"), Some("src/**"), Some(&listing()));
    assert_eq!(c, ChangeClassification::StructuralChange);
    assert_eq!(d, "boundaries.path changed with equal scoped coverage");
    let failing = PathCoverage { base_files: Err("boom".to_string()), head_files: Ok(Vec::new()) };
    let (_, d) = classify_boundaries_path_change("modules/m.spec.yml", Some("src/a"), Some("src/b"), Some(&failing));
    assert_eq!(d, "boundaries.path changed: path_coverage_unbounded_mvp (base ref scoped ls-tree failed: boom)");
    let (_, d) = classify_boundaries_path_change("modules/m.spec.yml", Some("src/a/[z"), Some("src/b"), Some(&listing()));
    assert!(d.starts_with("boundaries.path changed: path_coverage_unbounded_mvp (invalid boundaries.path glob 'src/a/[z': "));
}

#[test]
fn static_prefixes_and_candidates() {
    assert_eq!(static_prefix_from_glob("  ./src/app/**/*.ts "), Some("src/app/".to_string()));
    assert_eq!(static_prefix_from_glob("**/*.ts"), None);
    assert_eq!(static_prefix_from_glob("/abs/x"), Some("abs/x".to_string()));
    assert_eq!(
        candidate_path_prefixes("modules/app.spec.yml", Some("src/b/**"), Some("src/a/**")),
        vec!["src/a/".to_string(), "src/b/".to_string()]
    );
    assert_eq!(
        candidate_path_prefixes("./modules/app.spec.yml", Some("**"), None),
        vec!["modules/app".to_string()]
    );
    assert!(candidate_path_prefixes("modules/app.spec.yml", None, None).is_empty());
}

#[test]
fn snapshot_pairs_skip_unchanged_and_sort() {
    let pairs = vec![
        SpecSnapshotPair {
            spec_path: "modules/z.spec.yml".to_string(),
            base_spec: None,
            head_spec: Some(spec("z", None, Vec::new())),
        },
        SpecSnapshotPair {
            spec_path: "modules/same.spec.yml".to_string(),
            base_spec: Some(spec("same", None, Vec::new())),
            head_spec: Some(spec("same", None, Vec::new())),
        },
        SpecSnapshotPair {
            spec_path: "modules/a.spec.yml".to_string(),
            base_spec: Some(spec("a", None, Vec::new())),
            head_spec: None,
        },
    ];
    let diffs = classify_spec_snapshot_pairs(&pairs);
    assert_eq!(diffs.len(), 2);
    assert_eq!(diffs[0].module, "a");
    assert_eq!(diffs[1].module, "z");
}

fn spec_with_contracts(contracts: Vec<specgate::spec::types::BoundaryContract>) -> SpecFile {
    SpecFile {
        version: "2.2".to_string(),
        module: "orders".to_string(),
        package: None,
        import_id: None,
        import_ids: Vec::new(),
        description: None,
        boundaries: Some(Boundaries { contracts, ..Boundaries::default() }),
        constraints: Vec::new(),
        spec_path: None,
    }
}

fn named_contract(name: &str) -> specgate::spec::types::BoundaryContract {
    specgate::spec::types::BoundaryContract {
        name: Some(name.to_string()),
        ..specgate::spec::types::BoundaryContract::default()
    }
}

#[test]
fn removed_contract_widens_and_added_contract_narrows() {
    let mut required = named_contract("create-order");
    required.envelope = specgate::spec::types::EnvelopeRequirement::Required;
    let base = spec_with_contracts(vec![required, named_contract("cancel-order")]);
    let head = spec_with_contracts(vec![named_contract("create-order"), named_contract("refund")]);
    let diff = classify_spec_snapshot_pair("modules/orders.spec.yml", Some(&base), Some(&head)).expect("diff");
    let summary: Vec<(String, ChangeClassification, String)> = diff
        .changes
        .iter()
        .filter(|c| c.field.starts_with("boundaries.contracts"))
        .map(|c| (c.field.clone(), c.classification, c.detail.clone()))
        .collect();
    assert!(summary.contains(&(
        "boundaries.contracts".to_string(),
        ChangeClassification::Widening,
        "contract 'cancel-order' removed".to_string()
    )));
    assert!(summary.contains(&(
        "boundaries.contracts".to_string(),
        ChangeClassification::Narrowing,
        "contract 'refund' added".to_string()
    )));
    assert!(summary.contains(&(
        "boundaries.contracts.envelope".to_string(),
        ChangeClassification::Widening,
        "contract 'create-order' envelope changed".to_string()
    )));
    assert_eq!(summary.len(), 3);
}
