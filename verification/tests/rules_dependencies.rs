use specgate::rules::dependencies::{
    evaluate_dependency_rules, typed_violations_to_rule_violations, DependencyRuleError, DependencyViolationKind,
    ResolvedFile, ResolvedSpecifier, DEPENDENCY_NOT_ALLOWED_RULE_ID,
};
use specgate::spec::config::SpecConfig;
use specgate::spec::types::{Boundaries, SpecFile};

const ROOT: &str = "/repo";

fn spec_with_boundaries(module: &str, path: &str, boundaries: Boundaries) -> SpecFile {
    SpecFile {
        version: "2.2".to_string(),
        module: module.to_string(),
        package: None,
        import_id: None,
        import_ids: Vec::new(),
        description: None,
        boundaries: Some(Boundaries { path: Some(path.to_string()), ..boundaries }),
        constraints: Vec::new(),
        spec_path: None,
    }
}

/// A file of a module importing specifiers, each resolved to a package or not.
fn resolved(path: &str, module: &str, imports: &[(&str, Option<&str>)]) -> ResolvedFile {
    ResolvedFile {
        path: format!("{ROOT}/{path}"),
        module: Some(module.to_string()),
        imports: imports
            .iter()
            .map(|(s, p)| ResolvedSpecifier { specifier: s.to_string(), package: p.map(ToString::to_string) })
            .collect(),
    }
}

#[test]
fn forbidden_dependencies_have_precedence_over_allowlist() {
    let specs = vec![spec_with_boundaries(
        "app",
        "src/app/**/*",
        Boundaries {
            allowed_dependencies: vec!["lodash".to_string()],
            forbidden_dependencies: vec!["lodash".to_string()],
            ..Boundaries::default()
        },
    )];
    let files = vec![resolved("src/app/main.ts", "app", &[("lodash", Some("lodash"))])];
    let violations = evaluate_dependency_rules(ROOT, &specs, &SpecConfig::default(), &files).expect("rules");
    assert_eq!(violations.len(), 1);
    assert_eq!(violations[0].kind, DependencyViolationKind::ForbiddenDependency);
}

#[test]
fn allowlist_is_default_deny_for_third_party_dependencies() {
    let specs = vec![spec_with_boundaries(
        "app",
        "src/app/**/*",
        Boundaries { allowed_dependencies: vec!["lodash".to_string()], ..Boundaries::default() },
    )];
    let files = vec![
        resolved("src/app/main.ts", "app", &[("lodash", Some("lodash")), ("date-fns", Some("date-fns")), ("./local", None)]),
        resolved("src/app/local.ts", "app", &[]),
    ];
    let violations = evaluate_dependency_rules(ROOT, &specs, &SpecConfig::default(), &files).expect("rules");
    assert_eq!(violations.len(), 1);
    assert_eq!(violations[0].package_name, "date-fns");
    assert_eq!(violations[0].kind, DependencyViolationKind::DependencyNotAllowed);
}

#[test]
fn forbidden_dependencies_apply_in_tests_even_when_enforce_in_tests_is_false() {
    let specs = vec![spec_with_boundaries(
        "app",
        "src/app/**/*",
        Boundaries { forbidden_dependencies: vec!["left-pad".to_string()], enforce_in_tests: false, ..Boundaries::default() },
    )];
    let files = vec![resolved("src/app/feature.test.ts", "app", &[("left-pad", Some("left-pad"))])];
    let violations = evaluate_dependency_rules(ROOT, &specs, &SpecConfig::default(), &files).expect("rules");
    assert_eq!(violations.len(), 1);
    assert!(violations[0].is_test_file);
    assert_eq!(violations[0].kind, DependencyViolationKind::ForbiddenDependency);
}

#[test]
fn allowlist_checks_are_skipped_for_tests_when_enforce_in_tests_is_false() {
    let specs = vec![spec_with_boundaries(
        "app",
        "src/app/**/*",
        Boundaries { allowed_dependencies: vec!["lodash".to_string()], enforce_in_tests: false, ..Boundaries::default() },
    )];
    let files = vec![resolved("src/app/feature.test.ts", "app", &[("left-pad", Some("left-pad"))])];
    let violations = evaluate_dependency_rules(ROOT, &specs, &SpecConfig::default(), &files).expect("rules");
    assert!(violations.is_empty());
}

#[test]
fn violations_are_sorted_deterministically() {
    let specs = vec![
        spec_with_boundaries("alpha", "src/a/**/*", Boundaries { allowed_dependencies: vec!["lodash".to_string()], ..Boundaries::default() }),
        spec_with_boundaries("beta", "src/b/**/*", Boundaries { allowed_dependencies: vec!["lodash".to_string()], ..Boundaries::default() }),
    ];
    let files = vec![
        resolved("src/b/second.ts", "beta", &[("zod", Some("zod"))]),
        resolved("src/a/first.ts", "alpha", &[("axios", Some("axios"))]),
    ];
    let violations = evaluate_dependency_rules(ROOT, &specs, &SpecConfig::default(), &files).expect("rules");
    let ordered = violations
        .iter()
        .map(|v| {
            let rel = v.file.strip_prefix("/repo/").expect("under root");
            format!("{}|{}|{}|{}|{:?}", v.module_id, rel, v.specifier, v.package_name, v.kind)
        })
        .collect::<Vec<_>>();
    assert_eq!(
        ordered,
        vec!["alpha|src/a/first.ts|axios|axios|DependencyNotAllowed", "beta|src/b/second.ts|zod|zod|DependencyNotAllowed"]
    );
}

#[test]
fn dependency_violations_become_rule_violations() {
    let specs = vec![spec_with_boundaries(
        "app",
        "src/app/**/*",
        Boundaries { allowed_dependencies: vec!["lodash".to_string()], ..Boundaries::default() },
    )];
    let files = vec![resolved("src/app/main.ts", "app", &[("axios", Some("axios"))])];
    let typed = evaluate_dependency_rules(ROOT, &specs, &SpecConfig::default(), &files).expect("rules");
    let violations = typed_violations_to_rule_violations(typed);
    assert_eq!(violations.len(), 1);
    assert_eq!(violations[0].rule, DEPENDENCY_NOT_ALLOWED_RULE_ID);
    assert_eq!(violations[0].from_module.as_deref(), Some("app"));
    assert_eq!(violations[0].message, "module 'app' does not allow dependency 'axios' (import 'axios')");
}

#[test]
fn modules_without_policy_or_spec_are_skipped() {
    let specs = vec![spec_with_boundaries("app", "src/app/**/*", Boundaries::default())];
    let files = vec![
        resolved("src/app/main.ts", "app", &[("axios", Some("axios"))]),
        resolved("src/other/x.ts", "other", &[("axios", Some("axios"))]),
        ResolvedFile { path: "/repo/loose.ts".to_string(), module: None, imports: Vec::new() },
    ];
    let violations = evaluate_dependency_rules(ROOT, &specs, &SpecConfig::default(), &files).expect("rules");
    assert!(violations.is_empty());
}

#[test]
fn invalid_test_glob_fails_the_dependency_rules() {
    let mut config = SpecConfig::default();
    config.test_patterns = vec!["[".to_string()];
    match evaluate_dependency_rules(ROOT, &[], &config, &[]) {
        Err(DependencyRuleError::InvalidTestGlob { pattern, .. }) => assert_eq!(pattern, "["),
        other => panic!("unexpected {other:?}"),
    }
}
