use specgate::graph::{DependencyGraph, FileAnalysis, ReExportInfo};
use specgate::rules::unique_export::{evaluate_unique_export, parse_unique_export_config, UNIQUE_EXPORT_RULE_ID};
use specgate::spec::types::{Boundaries, Constraint, JsonValue, Severity, SpecFile};

const ROOT: &str = "/repo";

fn obj(members: Vec<(&str, JsonValue)>) -> JsonValue {
    JsonValue::Object(members.into_iter().map(|(k, v)| (k.to_string(), v)).collect())
}

fn strs(items: &[&str]) -> JsonValue {
    JsonValue::Array(items.iter().map(|s| JsonValue::Str(s.to_string())).collect())
}

fn spec_with_constraint(module: &str, path: &str, params: JsonValue) -> SpecFile {
    SpecFile {
        version: "2.2".to_string(),
        module: module.to_string(),
        package: None,
        import_id: None,
        import_ids: Vec::new(),
        description: None,
        boundaries: Some(Boundaries { path: Some(path.to_string()), ..Boundaries::default() }),
        constraints: vec![Constraint {
            rule: UNIQUE_EXPORT_RULE_ID.to_string(),
            params,
            severity: Severity::Error,
            message: None,
        }],
        spec_path: None,
    }
}

fn spec_without_constraint(module: &str, path: &str) -> SpecFile {
    SpecFile { constraints: Vec::new(), ..spec_with_constraint(module, path, obj(vec![])) }
}

fn file(rel: &str) -> String {
    format!("{ROOT}/{rel}")
}

/// Files with their module, named exports and named re-exports.
fn build_graph(files: &[(&str, &str, &[&str], &[&str])]) -> DependencyGraph {
    DependencyGraph {
        edges: Vec::new(),
        file_modules: files.iter().map(|(f, m, _, _)| (file(f), m.to_string())).collect(),
        file_imports: Vec::new(),
        file_analyses: files
            .iter()
            .map(|(f, _, exports, re_exports)| FileAnalysis {
                path: file(f),
                exports: exports.iter().map(|e| e.to_string()).collect(),
                re_exports: if re_exports.is_empty() {
                    Vec::new()
                } else {
                    vec![ReExportInfo {
                        specifier: "./alpha".to_string(),
                        line: 1,
                        column: 1,
                        is_star: false,
                        names: re_exports.iter().map(|e| e.to_string()).collect(),
                    }]
                },
                require_calls: Vec::new(),
                dynamic_imports: Vec::new(),
            })
            .collect(),
    }
}

#[test]
fn parse_config_accepts_empty_params() {
    let config = parse_unique_export_config(&obj(vec![])).expect("valid config");
    assert!(config.exports.is_empty());
}

#[test]
fn parse_config_accepts_explicit_exports() {
    let config = parse_unique_export_config(&obj(vec![("exports", strs(&["getData", "setData"]))])).expect("valid config");
    assert_eq!(config.exports, vec!["getData", "setData"]);
}

#[test]
fn parse_config_rejects_non_object() {
    assert!(parse_unique_export_config(&JsonValue::Array(Vec::new())).is_err());
    assert!(parse_unique_export_config(&JsonValue::Str("string".to_string())).is_err());
    assert!(parse_unique_export_config(&JsonValue::Number("42".to_string())).is_err());
}

#[test]
fn parse_config_rejects_non_array_exports() {
    assert!(parse_unique_export_config(&obj(vec![("exports", JsonValue::Str("bad".to_string()))])).is_err());
}

#[test]
fn parse_config_rejects_non_string_in_exports() {
    let err = parse_unique_export_config(&obj(vec![("exports", JsonValue::Array(vec![JsonValue::Number("1".to_string())]))]))
        .unwrap_err();
    assert_eq!(err.message, "params.exports for rule 'boundary.unique_export' must contain only strings");
}

#[test]
fn parse_config_rejects_empty_string_in_exports() {
    assert!(parse_unique_export_config(&obj(vec![("exports", strs(&[""]))])).is_err());
    let err = parse_unique_export_config(&obj(vec![("exports", strs(&["  "]))])).unwrap_err();
    assert_eq!(err.message, "params.exports for rule 'boundary.unique_export' cannot contain empty names");
}

#[test]
fn parse_config_trims_names() {
    let config = parse_unique_export_config(&obj(vec![("exports", strs(&[" a ", "b"]))])).expect("valid config");
    assert_eq!(config.exports, vec!["a", "b"]);
}

#[test]
fn no_violations_when_exports_are_unique() {
    let graph = build_graph(&[("src/tools/alpha.ts", "tools", &["alpha"], &[]), ("src/tools/beta.ts", "tools", &["beta"], &[])]);
    let specs = vec![spec_with_constraint("tools", "src/tools/**/*", obj(vec![]))];
    let report = evaluate_unique_export(ROOT, &specs, &graph);
    assert!(report.config_issues.is_empty());
    assert!(report.violations.is_empty(), "{report:?}");
    assert!(report.is_clean());
}

#[test]
fn detects_duplicate_export_names_across_files() {
    let graph = build_graph(&[
        ("src/tools/alpha.ts", "tools", &["sharedName", "alpha"], &[]),
        ("src/tools/beta.ts", "tools", &["sharedName", "beta"], &[]),
    ]);
    let specs = vec![spec_with_constraint("tools", "src/tools/**/*", obj(vec![]))];
    let report = evaluate_unique_export(ROOT, &specs, &graph);
    assert!(report.config_issues.is_empty());
    assert_eq!(report.violations.len(), 1);
    assert_eq!(report.violations[0].export_name, "sharedName");
    assert_eq!(report.violations[0].module, "tools");
    assert_eq!(report.violations[0].files.len(), 2);
    assert!(report.violations[0].message.contains("duplicate export"));
    assert_eq!(
        report.violations[0].message,
        "duplicate export 'sharedName' in module 'tools' found in 2 files: src/tools/alpha.ts, src/tools/beta.ts"
    );
    assert_eq!(
        report.violations[0].fix_hint,
        "Remove or rename the duplicate export 'sharedName' so each export name is unique within module 'tools'."
    );
}

#[test]
fn scoped_exports_only_checks_listed_names() {
    let graph = build_graph(&[
        ("src/tools/alpha.ts", "tools", &["sharedName", "tracked"], &[]),
        ("src/tools/beta.ts", "tools", &["sharedName", "tracked"], &[]),
    ]);
    let specs = vec![spec_with_constraint("tools", "src/tools/**/*", obj(vec![("exports", strs(&["tracked"]))]))];
    let report = evaluate_unique_export(ROOT, &specs, &graph);
    assert!(report.config_issues.is_empty());
    assert_eq!(report.violations.len(), 1);
    assert_eq!(report.violations[0].export_name, "tracked");
}

#[test]
fn no_constraint_means_no_violations() {
    let graph = build_graph(&[
        ("src/tools/alpha.ts", "tools", &["sharedName"], &[]),
        ("src/tools/beta.ts", "tools", &["sharedName"], &[]),
    ]);
    let specs = vec![spec_without_constraint("tools", "src/tools/**/*")];
    let report = evaluate_unique_export(ROOT, &specs, &graph);
    assert!(report.violations.is_empty());
    assert!(report.config_issues.is_empty());
}

#[test]
fn malformed_params_are_reported_as_config_issues() {
    let graph = build_graph(&[("src/a.ts", "core", &["a"], &[])]);
    let specs = vec![spec_with_constraint("core", "src/**/*", JsonValue::Array(Vec::new()))];
    let report = evaluate_unique_export(ROOT, &specs, &graph);
    assert!(report.violations.is_empty());
    assert_eq!(report.config_issues.len(), 1);
    assert!(report.config_issues[0].message.contains("must be an object"));
    assert_eq!(report.config_issues[0].module, "core");
}

#[test]
fn default_exports_are_excluded_from_uniqueness_check() {
    let graph = build_graph(&[
        ("src/tools/alpha.ts", "tools", &["__default"], &[]),
        ("src/tools/beta.ts", "tools", &["__default"], &[]),
    ]);
    let specs = vec![spec_with_constraint("tools", "src/tools/**/*", obj(vec![]))];
    let report = evaluate_unique_export(ROOT, &specs, &graph);
    assert!(report.violations.is_empty(), "default exports should be excluded: {report:?}");
}

#[test]
fn violations_are_deterministic() {
    let graph = build_graph(&[
        ("src/tools/a.ts", "tools", &["foo", "bar"], &[]),
        ("src/tools/b.ts", "tools", &["foo", "bar"], &[]),
    ]);
    let specs = vec![spec_with_constraint("tools", "src/tools/**/*", obj(vec![]))];
    let report = evaluate_unique_export(ROOT, &specs, &graph);
    assert_eq!(report.violations.len(), 2);
    assert_eq!(report.violations[0].export_name, "bar");
    assert_eq!(report.violations[1].export_name, "foo");
}

#[test]
fn duplicate_export_in_different_modules_does_not_trigger_violation() {
    let graph = build_graph(&[
        ("src/payments/utils.ts", "payments", &["formatDate"], &[]),
        ("src/billing/utils.ts", "billing", &["formatDate"], &[]),
    ]);
    let specs = vec![
        spec_with_constraint("payments", "src/payments/**/*", obj(vec![])),
        spec_with_constraint("billing", "src/billing/**/*", obj(vec![])),
    ];
    let report = evaluate_unique_export(ROOT, &specs, &graph);
    assert!(report.config_issues.is_empty());
    assert!(report.violations.is_empty(), "same export name in different modules must not produce violations: {report:?}");
}

#[test]
fn re_exports_are_included_in_uniqueness_check() {
    let graph = build_graph(&[
        ("src/tools/alpha.ts", "tools", &["sharedName"], &[]),
        ("src/tools/beta.ts", "tools", &[], &["sharedName"]),
    ]);
    let specs = vec![spec_with_constraint("tools", "src/tools/**/*", obj(vec![]))];
    let report = evaluate_unique_export(ROOT, &specs, &graph);
    assert_eq!(report.violations.len(), 1);
    assert_eq!(report.violations[0].export_name, "sharedName");
}

#[test]
fn repeated_constraints_and_issues_are_reported_once() {
    let graph = build_graph(&[("src/tools/a.ts", "tools", &["x"], &[]), ("src/tools/b.ts", "tools", &["x"], &[])]);
    let mut spec = spec_with_constraint("tools", "src/tools/**/*", obj(vec![]));
    spec.constraints.push(Constraint {
        rule: UNIQUE_EXPORT_RULE_ID.to_string(),
        params: obj(vec![]),
        severity: Severity::Warning,
        message: None,
    });
    spec.constraints.push(Constraint {
        rule: UNIQUE_EXPORT_RULE_ID.to_string(),
        params: JsonValue::Null,
        severity: Severity::Error,
        message: None,
    });
    spec.constraints.push(Constraint {
        rule: UNIQUE_EXPORT_RULE_ID.to_string(),
        params: JsonValue::Bool(true),
        severity: Severity::Error,
        message: None,
    });
    let report = evaluate_unique_export(ROOT, &[spec], &graph);
    assert_eq!(report.violations.len(), 1);
    assert_eq!(report.config_issues.len(), 1);
    assert_eq!(report.violations[0].files, vec![file("src/tools/a.ts"), file("src/tools/b.ts")]);
}
