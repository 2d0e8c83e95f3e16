use specgate::graph::CycleComponent;
use specgate::rules::circular::{evaluate_no_circular_deps, CircularScopeParam, NO_CIRCULAR_DEPS_RULE_ID};
use specgate::spec::types::{Boundaries, Constraint, JsonValue, Severity, SpecFile};

const ROOT: &str = "/repo";

fn module_spec(module: &str, path: &str) -> SpecFile {
    SpecFile {
        version: "2.2".to_string(),
        module: module.to_string(),
        package: None,
        import_id: None,
        import_ids: Vec::new(),
        description: None,
        boundaries: Some(Boundaries { path: Some(path.to_string()), ..Boundaries::default() }),
        constraints: Vec::new(),
        spec_path: None,
    }
}

fn add_constraint(spec: &mut SpecFile, scope: &str, severity: Severity, message: Option<&str>) {
    spec.constraints.push(Constraint {
        rule: NO_CIRCULAR_DEPS_RULE_ID.to_string(),
        params: JsonValue::Object(vec![("scope".to_string(), JsonValue::Str(scope.to_string()))]),
        severity,
        message: message.map(ToString::to_string),
    });
}

fn file(rel: &str) -> String {
    format!("{ROOT}/{rel}")
}

/// An internal cycle in alpha and an external one between beta and gamma.
fn setup_cycle_fixture() -> (Vec<CycleComponent>, Vec<SpecFile>) {
    let cycles = vec![
        CycleComponent {
            files: vec![file("src/beta/x.ts"), file("src/gamma/y.ts")],
            modules: vec!["beta".to_string(), "gamma".to_string()],
        },
        CycleComponent {
            files: vec![file("src/alpha/a.ts"), file("src/alpha/b.ts")],
            modules: vec!["alpha".to_string()],
        },
    ];
    let specs = vec![
        module_spec("gamma", "src/gamma/**/*"),
        module_spec("alpha", "src/alpha/**/*"),
        module_spec("beta", "src/beta/**/*"),
    ];
    (cycles, specs)
}

fn relative(files: &[String]) -> Vec<String> {
    files.iter().map(|f| f.strip_prefix(&format!("{ROOT}/")).expect("under root").to_string()).collect()
}

#[test]
fn internal_scope_reports_only_internal_components() {
    let (cycles, mut specs) = setup_cycle_fixture();
    add_constraint(&mut specs[0], "internal", Severity::Error, None);
    let violations = evaluate_no_circular_deps(&specs, &cycles, ROOT);
    assert_eq!(violations.len(), 1);
    assert_eq!(violations[0].scope, CircularScopeParam::Internal);
    assert_eq!(violations[0].severity, Severity::Error);
    assert_eq!(violations[0].component_modules, vec!["alpha".to_string()]);
    assert_eq!(relative(&violations[0].component_files), vec!["src/alpha/a.ts", "src/alpha/b.ts"]);
    assert!(violations[0].message.contains("src/alpha/a.ts"));
    assert!(violations[0].message.contains("src/alpha/b.ts"));
    assert!(!violations[0].message.contains(ROOT), "default circular message should not include absolute repo paths");
    assert_eq!(
        violations[0].message,
        "Detected circular dependency component (scope: internal) across files: src/alpha/a.ts, src/alpha/b.ts"
    );
}

#[test]
fn external_scope_reports_only_external_components() {
    let (cycles, mut specs) = setup_cycle_fixture();
    add_constraint(&mut specs[1], "external", Severity::Warning, Some("custom message"));
    let violations = evaluate_no_circular_deps(&specs, &cycles, ROOT);
    assert_eq!(violations.len(), 1);
    assert_eq!(violations[0].scope, CircularScopeParam::External);
    assert_eq!(violations[0].severity, Severity::Warning);
    assert_eq!(violations[0].message, "custom message");
    assert_eq!(violations[0].component_modules, vec!["beta".to_string(), "gamma".to_string()]);
    assert_eq!(violations[0].module, "alpha");
}

#[test]
fn both_scope_is_deterministic() {
    let (cycles, mut specs) = setup_cycle_fixture();
    add_constraint(&mut specs[0], "both", Severity::Error, None);
    add_constraint(&mut specs[2], "both", Severity::Error, None);
    let violations = evaluate_no_circular_deps(&specs, &cycles, ROOT);
    assert_eq!(violations.len(), 4);
    let modules = violations.iter().map(|v| v.module.clone()).collect::<Vec<_>>();
    assert_eq!(modules, vec!["beta".to_string(), "beta".to_string(), "gamma".to_string(), "gamma".to_string()]);
    let components = violations.iter().map(|v| relative(&v.component_files)).collect::<Vec<_>>();
    assert_eq!(
        components,
        vec![
            vec!["src/alpha/a.ts", "src/alpha/b.ts"],
            vec!["src/beta/x.ts", "src/gamma/y.ts"],
            vec!["src/alpha/a.ts", "src/alpha/b.ts"],
            vec!["src/beta/x.ts", "src/gamma/y.ts"],
        ]
    );
}

#[test]
fn repeated_equivalent_constraints_are_deduped() {
    let (cycles, mut specs) = setup_cycle_fixture();
    add_constraint(&mut specs[0], "both", Severity::Error, None);
    add_constraint(&mut specs[0], "both", Severity::Error, None);
    let violations = evaluate_no_circular_deps(&specs, &cycles, ROOT);
    assert_eq!(violations.len(), 2);
    assert!(violations.iter().all(|v| v.module == "gamma"));
}

#[test]
fn invalid_scope_does_not_widen_to_both() {
    let (cycles, mut specs) = setup_cycle_fixture();
    add_constraint(&mut specs[0], "unexpected", Severity::Error, None);
    let violations = evaluate_no_circular_deps(&specs, &cycles, ROOT);
    assert!(violations.is_empty());
}

#[test]
fn scope_is_trimmed_and_case_insensitive_and_defaults_to_both() {
    let (cycles, mut specs) = setup_cycle_fixture();
    add_constraint(&mut specs[0], "  INTERNAL ", Severity::Warning, None);
    specs[1].constraints.push(Constraint {
        rule: NO_CIRCULAR_DEPS_RULE_ID.to_string(),
        params: JsonValue::Object(Vec::new()),
        severity: Severity::Error,
        message: Some("m".to_string()),
    });
    let violations = evaluate_no_circular_deps(&specs, &cycles, ROOT);
    let summary: Vec<(String, CircularScopeParam)> = violations.iter().map(|v| (v.module.clone(), v.scope)).collect();
    assert_eq!(
        summary,
        vec![
            ("alpha".to_string(), CircularScopeParam::Both),
            ("alpha".to_string(), CircularScopeParam::Both),
            ("gamma".to_string(), CircularScopeParam::Internal),
        ]
    );
    assert!(violations.iter().all(|v| v.rule == NO_CIRCULAR_DEPS_RULE_ID));
}

#[test]
fn other_rules_and_severities_are_kept_apart() {
    let (cycles, mut specs) = setup_cycle_fixture();
    add_constraint(&mut specs[0], "internal", Severity::Warning, None);
    add_constraint(&mut specs[0], "internal", Severity::Error, None);
    specs[0].constraints.push(Constraint {
        rule: "enforce-layer".to_string(),
        params: JsonValue::Object(Vec::new()),
        severity: Severity::Error,
        message: None,
    });
    let violations = evaluate_no_circular_deps(&specs, &cycles, ROOT);
    let severities: Vec<Severity> = violations.iter().map(|v| v.severity).collect();
    assert_eq!(severities, vec![Severity::Error, Severity::Warning]);
}
