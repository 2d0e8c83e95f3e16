use specgate::spec::config::StaleBaselinePolicy;
use specgate::spec::Severity;
use specgate::verdict::{
    build_verdict, build_verdict_with_governance, build_verdict_with_options, sort_policy_violations,
    FingerprintedViolation, GovernanceContext, PolicyViolation, VerdictBuildOptions, VerdictDisposition,
    VerdictIdentity, VerdictStatus, ViolationDisposition, VERDICT_SCHEMA_VERSION,
};

fn violation(rule: &str, severity: Severity, from_file: &str, message: &str) -> PolicyViolation {
    PolicyViolation {
        rule: rule.to_string(),
        severity,
        message: message.to_string(),
        from_file: from_file.to_string(),
        to_file: None,
        from_module: Some("app".to_string()),
        to_module: Some("core".to_string()),
        line: Some(1),
        column: Some(0),
        expected: None,
        actual: None,
        remediation_hint: None,
        contract_id: None,
        edge_type: None,
    }
}

fn identity(output_mode: &str) -> VerdictIdentity {
    VerdictIdentity {
        tool_version: "0.1.0".to_string(),
        git_sha: "abc123".to_string(),
        config_hash: "sha256:config".to_string(),
        spec_hash: "sha256:spec".to_string(),
        output_mode: output_mode.to_string(),
        spec_files_changed: Vec::new(),
        rule_deltas: Vec::new(),
        policy_change_detected: false,
    }
}

#[test]
fn verdict_status_fails_on_new_error_only() {
    let entries = vec![
        FingerprintedViolation {
            violation: violation("boundary.never_imports", Severity::Error, "src/a.ts", "bad"),
            fingerprint: "sha256:a".to_string(),
            disposition: ViolationDisposition::Baseline,
        },
        FingerprintedViolation {
            violation: violation("boundary.public_api", Severity::Warning, "src/b.ts", "warn"),
            fingerprint: "sha256:b".to_string(),
            disposition: ViolationDisposition::New,
        },
    ];

    let verdict = build_verdict(".", &entries, 0, None, identity("deterministic"));
    assert_eq!(verdict.status, VerdictStatus::Pass);
    assert_eq!(verdict.summary.core.new_warning_violations, 1);

    let mut entries_with_error = entries;
    entries_with_error.push(FingerprintedViolation {
        violation: violation("dependency.not_allowed", Severity::Error, "src/c.ts", "bad"),
        fingerprint: "sha256:c".to_string(),
        disposition: ViolationDisposition::New,
    });

    let failing = build_verdict(".", &entries_with_error, 0, None, identity("deterministic"));
    assert_eq!(failing.status, VerdictStatus::Fail);
    assert_eq!(failing.summary.core.new_error_violations, 1);
}

#[test]
fn verdict_summary_counts_add_up() {
    let entries = vec![
        FingerprintedViolation {
            violation: violation("r1", Severity::Error, "src/a.ts", "m1"),
            fingerprint: "sha256:a".to_string(),
            disposition: ViolationDisposition::New,
        },
        FingerprintedViolation {
            violation: violation("r2", Severity::Warning, "src/b.ts", "m2"),
            fingerprint: "sha256:b".to_string(),
            disposition: ViolationDisposition::Baseline,
        },
        FingerprintedViolation {
            violation: violation("r3", Severity::Error, "src/c.ts", "m3"),
            fingerprint: "sha256:c".to_string(),
            disposition: ViolationDisposition::Baseline,
        },
    ];
    let verdict = build_verdict(".", &entries, 4, None, identity("human"));
    let core = verdict.summary.core;
    assert_eq!(core.total_violations, 3);
    assert_eq!(core.new_violations, 1);
    assert_eq!(core.baseline_violations, 2);
    assert_eq!(core.new_error_violations, 1);
    assert_eq!(core.new_warning_violations, 0);
    assert_eq!(verdict.summary.error_violations, 2);
    assert_eq!(verdict.summary.warning_violations, 1);
    assert_eq!(verdict.summary.suppressed_violations, 4);
    assert_eq!(verdict.verdict_schema, VERDICT_SCHEMA_VERSION);
    assert_eq!(verdict.schema_version, "2.2");
    assert_eq!(verdict.status, VerdictStatus::Fail);
}

#[test]
fn verdict_paths_are_project_relative_and_sorted() {
    let entries = vec![
        FingerprintedViolation {
            violation: violation("r", Severity::Warning, "/repo/src/z.ts", "late"),
            fingerprint: "f2".to_string(),
            disposition: ViolationDisposition::New,
        },
        FingerprintedViolation {
            violation: violation("r", Severity::Warning, "/repo/src/a.ts", "early"),
            fingerprint: "f1".to_string(),
            disposition: ViolationDisposition::Baseline,
        },
    ];
    let verdict = build_verdict("/repo", &entries, 0, None, identity("human"));
    assert_eq!(verdict.violations.len(), 2);
    assert_eq!(verdict.violations[0].from_file, "src/a.ts");
    assert_eq!(verdict.violations[0].disposition, VerdictDisposition::Baseline);
    assert_eq!(verdict.violations[1].from_file, "src/z.ts");
    assert_eq!(verdict.status, VerdictStatus::Pass);
}

#[test]
fn stale_baseline_policy_fail_flips_status_without_new_errors() {
    let entries: Vec<FingerprintedViolation> = Vec::new();
    let governance = GovernanceContext {
        stale_baseline_entries: 2,
        expired_baseline_entries: 1,
        rule_deltas: Vec::new(),
        policy_change_detected: false,
    };
    let warn = build_verdict_with_governance(".", &entries, 0, None, identity("human"), governance.clone());
    assert_eq!(warn.status, VerdictStatus::Pass);
    assert_eq!(warn.summary.core.stale_baseline_entries, 2);
    assert_eq!(warn.summary.core.expired_baseline_entries, 1);
    assert_eq!(
        warn.governance.map(|g| g.stale_baseline_policy),
        Some(StaleBaselinePolicy::Warn)
    );

    let fail = build_verdict_with_options(
        ".",
        &entries,
        0,
        None,
        identity("human"),
        governance,
        VerdictBuildOptions { stale_baseline_policy: StaleBaselinePolicy::Fail, telemetry: None },
    );
    assert_eq!(fail.status, VerdictStatus::Fail);
}

#[test]
fn governance_context_propagates_rule_deltas() {
    let entries: Vec<FingerprintedViolation> = Vec::new();
    let rule_deltas = vec!["boundary.never_imports:added".to_string()];
    let governance = GovernanceContext {
        stale_baseline_entries: 0,
        expired_baseline_entries: 0,
        rule_deltas: rule_deltas.clone(),
        policy_change_detected: true,
    };
    let verdict = build_verdict_with_governance(".", &entries, 0, None, identity("human"), governance);
    assert_eq!(verdict.rule_deltas, rule_deltas);
    assert!(verdict.policy_change_detected);
    assert!(verdict.governance.is_none());
}

#[test]
fn sort_policy_violations_orders_by_path_components() {
    let mut vs = vec![
        violation("r", Severity::Error, "src/a/b.ts", "m"),
        violation("r", Severity::Error, "src/a-b.ts", "m"),
        violation("r", Severity::Warning, "src/a.ts", "m"),
    ];
    sort_policy_violations(&mut vs);
    let files: Vec<&str> = vs.iter().map(|v| v.from_file.as_str()).collect();
    assert_eq!(files, vec!["src/a/b.ts", "src/a-b.ts", "src/a.ts"]);
}
