use specgate::spec::Severity;
use specgate::verdict::format::{
    format_summary_table, format_verdict_human, format_violation_diff, format_violation_human,
    sarif_level, sarif_rule_descriptors, sarif_rule_short_description, ViolationStats,
};
use specgate::verdict::{
    AnonymizedTelemetrySummary, EdgeClassification, FingerprintedViolation, PolicyViolation,
    UnresolvedEdge, Verdict, VerdictDisposition, VerdictStatus, VerdictSummary, VerdictViolation,
    ViolationDisposition, VERDICT_SCHEMA_VERSION,
};

fn test_violation(rule: &str, severity: Severity, from_file: &str) -> PolicyViolation {
    PolicyViolation {
        rule: rule.to_string(),
        severity,
        message: "Test violation".to_string(),
        from_file: from_file.to_string(),
        to_file: Some("src/to.ts".to_string()),
        from_module: Some("app".to_string()),
        to_module: Some("core".to_string()),
        line: Some(10),
        column: Some(5),
        expected: None,
        actual: None,
        remediation_hint: None,
        contract_id: None,
        edge_type: None,
    }
}

fn test_entry(
    rule: &str,
    severity: Severity,
    from_file: &str,
    disposition: ViolationDisposition,
) -> FingerprintedViolation {
    FingerprintedViolation {
        violation: test_violation(rule, severity, from_file),
        fingerprint: "sha256:abc123def456789".to_string(),
        disposition,
    }
}

fn test_verdict_violation(
    rule: &str,
    severity: Severity,
    from_file: &str,
    disposition: VerdictDisposition,
    message: &str,
) -> VerdictViolation {
    VerdictViolation {
        rule: rule.to_string(),
        severity,
        message: message.to_string(),
        fingerprint: "sha256:test123".to_string(),
        disposition,
        from_file: from_file.to_string(),
        to_file: Some("src/to.ts".to_string()),
        from_module: Some("app".to_string()),
        to_module: Some("core".to_string()),
        line: Some(10),
        column: Some(5),
        expected: Some("expected_value".to_string()),
        actual: Some("actual_value".to_string()),
        remediation_hint: Some("Fix this issue".to_string()),
        contract_id: None,
        edge_type: None,
    }
}

fn empty_verdict() -> Verdict {
    Verdict {
        verdict_schema: VERDICT_SCHEMA_VERSION.to_string(),
        schema_version: "2.2".to_string(),
        tool_version: "0.1.0".to_string(),
        git_sha: "abc123".to_string(),
        config_hash: "sha256:config".to_string(),
        spec_hash: "sha256:spec".to_string(),
        output_mode: "human".to_string(),
        spec_files_changed: vec![],
        rule_deltas: vec![],
        policy_change_detected: false,
        status: VerdictStatus::Pass,
        summary: VerdictSummary {
            core: AnonymizedTelemetrySummary {
                total_violations: 0,
                new_violations: 0,
                baseline_violations: 0,
                new_error_violations: 0,
                new_warning_violations: 0,
                stale_baseline_entries: 0,
                expired_baseline_entries: 0,
            },
            suppressed_violations: 0,
            error_violations: 0,
            warning_violations: 0,
        },
        violations: vec![],
        metrics: None,
        governance: None,
        telemetry: None,
        workspace_packages: None,
        edge_classification: None,
        edges: Vec::new(),
        unresolved_edges: Vec::new(),
    }
}

fn verdict_with_violations(violations: Vec<VerdictViolation>) -> Verdict {
    let total = violations.len();
    let new_count = violations
        .iter()
        .filter(|v| matches!(v.disposition, VerdictDisposition::New))
        .count();
    let error_count = violations.iter().filter(|v| v.severity == Severity::Error).count();

    let mut verdict = empty_verdict();
    verdict.status = if error_count > 0 { VerdictStatus::Fail } else { VerdictStatus::Pass };
    verdict.summary = VerdictSummary {
        core: AnonymizedTelemetrySummary {
            total_violations: total,
            new_violations: new_count,
            baseline_violations: total - new_count,
            new_error_violations: new_count,
            new_warning_violations: 0,
            stale_baseline_entries: 0,
            expired_baseline_entries: 0,
        },
        suppressed_violations: 0,
        error_violations: error_count,
        warning_violations: total - error_count,
    };
    verdict.violations = violations;
    verdict
}

#[test]
fn human_format_includes_all_fields() {
    let entry = test_entry(
        "boundary.never_imports",
        Severity::Error,
        "src/app/main.ts",
        ViolationDisposition::New,
    );
    let output = format_violation_human(".", &entry);

    assert!(output.contains("[NEW]"));
    assert!(output.contains("ERROR"));
    assert!(output.contains("boundary.never_imports"));
    assert!(output.contains("app -> core"));
    assert!(output.contains("sha256:abc"));
}

#[test]
fn human_format_exact_line() {
    let entry = test_entry(
        "boundary.never_imports",
        Severity::Error,
        "src/app/main.ts",
        ViolationDisposition::New,
    );
    let output = format_violation_human(".", &entry);
    assert_eq!(
        output,
        "[NEW] src/app/main.ts:10:5 [app -> core] -> src/to.ts: ERROR - Test violation [boundary.never_imports] (fingerprint: sha256:abc12)"
    );
}

#[test]
fn diff_format_uses_git_style() {
    let entry = test_entry(
        "boundary.never_imports",
        Severity::Error,
        "src/app/main.ts",
        ViolationDisposition::New,
    );
    let output = format_violation_diff(".", &entry);

    assert!(output.starts_with("+"));
    assert!(output.contains("\tE\t"));
    assert!(output.contains("boundary.never_imports"));
}

#[test]
fn diff_format_exact_line() {
    let mut entry = test_entry("r", Severity::Warning, "src/a.ts", ViolationDisposition::Baseline);
    entry.violation.to_file = None;
    entry.violation.to_module = None;
    entry.violation.column = None;
    let output = format_violation_diff(".", &entry);
    assert_eq!(output, " src/a.ts\t:10\t\tW\tr\tapp\t-\t-\tTest violation");
}

#[test]
fn baseline_violations_have_space_prefix_in_diff() {
    let entry = test_entry(
        "boundary.never_imports",
        Severity::Warning,
        "src/app/main.ts",
        ViolationDisposition::Baseline,
    );
    let output = format_violation_diff(".", &entry);

    assert!(output.starts_with(" "));
    assert!(output.contains("\tW\t"));
}

#[test]
fn stats_format_includes_all_counts() {
    let violations = vec![
        test_entry("rule1", Severity::Error, "a.ts", ViolationDisposition::New),
        test_entry("rule2", Severity::Warning, "b.ts", ViolationDisposition::New),
        test_entry("rule3", Severity::Error, "c.ts", ViolationDisposition::Baseline),
    ];

    let stats = ViolationStats::from_violations(&violations);
    assert_eq!(stats.total, 3);
    assert_eq!(stats.errors, 2);
    assert_eq!(stats.warnings, 1);
    assert_eq!(stats.new, 2);
    assert_eq!(stats.baseline, 1);

    let human = stats.format_human();
    assert!(human.contains("3 total"));
    assert!(human.contains("2 new"));
    assert!(human.contains("1 baseline"));
    assert_eq!(human, "3 total, 2 new, 1 baseline, 2 errors, 1 warnings");
}

#[test]
fn stats_format_omits_zero_new_and_baseline() {
    let stats = ViolationStats::from_violations(&[]);
    assert_eq!(stats.format_human(), "0 total, 0 errors, 0 warnings");
}

#[test]
fn summary_table_has_header_and_rows() {
    let violations = vec![test_entry("rule1", Severity::Error, "a.ts", ViolationDisposition::New)];
    let table = format_summary_table(".", &violations);
    let lines: Vec<&str> = table.lines().collect();
    assert_eq!(lines.len(), 3);
    assert_eq!(lines[0], "FINGERPRINT\tSEVERITY\tRULE\tLOCATION\tSTATUS");
    assert_eq!(lines[2], "sha256:abc12\tERROR\trule1\ta.ts\tNEW");
}

#[test]
fn format_verdict_human_empty_shows_success() {
    let verdict = empty_verdict();
    let output = format_verdict_human(&verdict);

    assert!(output.contains("No violations found"));
    assert!(output.contains("Total violations: 0"));
    assert!(output.contains("Status: Pass"));
    assert!(output.contains("Verdict schema: 1.0"));
}

#[test]
fn format_verdict_human_shows_violations() {
    let violations = vec![test_verdict_violation(
        "boundary.never_imports",
        Severity::Error,
        "src/app/main.ts",
        VerdictDisposition::New,
        "Import not allowed",
    )];
    let verdict = verdict_with_violations(violations);
    let output = format_verdict_human(&verdict);

    assert!(output.contains("boundary.never_imports"));
    assert!(output.contains("Import not allowed"));
    assert!(output.contains("NEW"));
    assert!(output.contains("Error"));
    assert!(output.contains("Location:"));
    assert!(output.contains("Help:"));
    assert!(output.contains("Expected:"));
    assert!(output.contains("Actual:"));
    assert!(output.contains("Fingerprint:"));
}

#[test]
fn format_verdict_human_shows_multiple_violations() {
    let violations = vec![
        test_verdict_violation("rule1", Severity::Error, "src/a.ts", VerdictDisposition::New, "Error message"),
        test_verdict_violation(
            "rule2",
            Severity::Warning,
            "src/b.ts",
            VerdictDisposition::Baseline,
            "Warning message",
        ),
    ];
    let verdict = verdict_with_violations(violations);
    let output = format_verdict_human(&verdict);

    assert!(output.contains("rule1"));
    assert!(output.contains("rule2"));
    assert!(output.contains("Error message"));
    assert!(output.contains("Warning message"));
    assert!(output.contains("NEW"));
    assert!(output.contains("BASELINE"));
    assert!(output.contains("Total violations: 2"));
}

#[test]
fn format_verdict_human_includes_summary_stats() {
    let violations = vec![
        test_verdict_violation("rule1", Severity::Error, "src/a.ts", VerdictDisposition::New, "Error"),
        test_verdict_violation("rule2", Severity::Warning, "src/b.ts", VerdictDisposition::Baseline, "Warning"),
    ];
    let verdict = verdict_with_violations(violations);
    let output = format_verdict_human(&verdict);

    assert!(output.contains("Summary:"));
    assert!(output.contains("Total violations: 2"));
    assert!(output.contains("New violations: 1"));
    assert!(output.contains("Baseline violations: 1"));
    assert!(output.contains("Errors: 1"));
    assert!(output.contains("Warnings: 1"));
}

#[test]
fn format_verdict_human_violation_block_is_exact() {
    let violations = vec![test_verdict_violation(
        "rule1",
        Severity::Warning,
        "src/a.ts",
        VerdictDisposition::Baseline,
        "msg",
    )];
    let verdict = verdict_with_violations(violations);
    let output = format_verdict_human(&verdict);
    let expected_block = "⚠ warning[rule1] [BASELINE] msg\n  Location: src/a.ts:10:5\n  Target: src/to.ts\n  Modules: app → core\n  Help: Fix this issue\n  Expected: expected_value\n  Actual: actual_value\n  Fingerprint: sha256:test123\n\nSummary:";
    assert!(output.starts_with(expected_block), "{output}");
}

#[test]
fn human_output_includes_edge_classification() {
    let mut verdict = empty_verdict();
    verdict.edge_classification = Some(EdgeClassification {
        resolved: 342,
        type_only: 12,
        external: 28,
        unresolved_literal: 3,
        unresolved_dynamic: 7,
    });

    let output = format_verdict_human(&verdict);

    assert!(output.contains("Edge classification"), "should show edge classification section: {output}");
    assert!(output.contains("342"), "should show resolved count: {output}");
    assert!(output.contains("12"), "should show type_only count: {output}");
    assert!(output.contains("28"), "should show external count: {output}");
    assert!(output.contains("3"), "should show unresolved_literal count: {output}");
    assert!(output.contains("7"), "should show unresolved_dynamic count: {output}");
}

#[test]
fn human_output_includes_unresolved_edges() {
    let mut verdict = empty_verdict();
    verdict.unresolved_edges = vec![
        UnresolvedEdge {
            from: "src/api/handler.ts".to_string(),
            specifier: "./missing-module".to_string(),
            kind: "unresolved_literal".to_string(),
            line: Some(42),
        },
        UnresolvedEdge {
            from: "src/utils/loader.ts".to_string(),
            specifier: "./dynamic-missing".to_string(),
            kind: "unresolved_dynamic".to_string(),
            line: None,
        },
    ];

    let output = format_verdict_human(&verdict);

    assert!(output.contains("Unresolved imports"), "should show unresolved imports section: {output}");
    assert!(output.contains("src/api/handler.ts"), "should show from file: {output}");
    assert!(output.contains("./missing-module"), "should show specifier: {output}");
    assert!(output.contains("unresolved_literal"), "should show kind: {output}");
    assert!(output.contains("src/utils/loader.ts"), "should show second from file: {output}");
    assert!(output.contains("  src/api/handler.ts:42 -> './missing-module' (unresolved_literal)"));
}

#[test]
fn human_output_omits_edge_classification_when_none() {
    let verdict = empty_verdict();
    let output = format_verdict_human(&verdict);
    assert!(
        !output.contains("Edge classification"),
        "should not show edge classification when None: {output}"
    );
}

#[test]
fn human_output_omits_unresolved_edges_when_empty() {
    let verdict = empty_verdict();
    let output = format_verdict_human(&verdict);
    assert!(
        !output.contains("Unresolved imports"),
        "should not show unresolved imports when empty: {output}"
    );
}

#[test]
fn sarif_short_description_title_cases_namespace() {
    assert_eq!(sarif_rule_short_description("boundary.never_imports"), "Boundary never_imports violation");
    assert_eq!(sarif_rule_short_description("hygiene.deep.import"), "Hygiene deep.import violation");
    assert_eq!(sarif_rule_short_description("ßeta.x"), "SSeta x violation");
    assert_eq!(sarif_rule_short_description("no_namespace"), "no_namespace violation");
    assert_eq!(sarif_rule_short_description(".name"), ".name violation");
    assert_eq!(sarif_rule_short_description("ns."), "ns. violation");
}

#[test]
fn sarif_levels_and_rules_are_deduplicated_and_sorted() {
    let violations = vec![
        test_verdict_violation("rule.b", Severity::Warning, "src/a.ts", VerdictDisposition::New, "one"),
        test_verdict_violation("rule.a", Severity::Warning, "src/a.ts", VerdictDisposition::New, "two"),
        test_verdict_violation("rule.b", Severity::Error, "src/b.ts", VerdictDisposition::New, "three"),
        test_verdict_violation("rule.a", Severity::Warning, "src/c.ts", VerdictDisposition::Baseline, "four"),
    ];
    let rules = sarif_rule_descriptors(&violations);

    assert_eq!(rules.len(), 2);
    assert_eq!(rules[0].id, "rule.a");
    assert_eq!(rules[0].level, Severity::Warning);
    assert_eq!(rules[0].short_description, "Rule a violation");
    assert_eq!(rules[1].id, "rule.b");
    assert_eq!(rules[1].level, Severity::Error);
    assert_eq!(sarif_level(rules[1].level), "error");
    assert_eq!(sarif_level(rules[0].level), "warning");
}

#[test]
fn sarif_rules_empty_without_violations() {
    assert!(sarif_rule_descriptors(&[]).is_empty());
}
