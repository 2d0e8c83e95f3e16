use specgate::rules::boundary::{
    is_canonical_import_rule_id, BOUNDARY_CANONICAL_IMPORTS_RULE_ID_ALIAS, BOUNDARY_CANONICAL_IMPORT_RULE_ID,
};
use specgate::rules::categories::{category_for_module, EnforceCategoryReport};
use specgate::rules::circular::{CircularScopeParam, InvalidCircularScope};
use specgate::rules::dependencies::{
    dependency_violation_kind, typed_violations_to_rule_violations, DependencyPolicy, DependencyViolation,
    DependencyViolationKind, DEPENDENCY_FORBIDDEN_RULE_ID, DEPENDENCY_NOT_ALLOWED_RULE_ID,
};
use specgate::rules::envelope::{filter_calls_by_span, EnvelopeCall};
use specgate::rules::hygiene::parse_package_name;
use specgate::rules::layers::{layer_for_module, EnforceLayerReport, LayerConfigIssue};
use specgate::rules::module_group_segment;
use specgate::rules::unique_export::UniqueExportReport;
use specgate::spec::config::{SpecConfig, TestBoundaryMode};
use specgate::spec::types::JsonValue;

#[test]
fn canonical_import_rule_id_alias_is_recognized() {
    assert!(is_canonical_import_rule_id(BOUNDARY_CANONICAL_IMPORT_RULE_ID));
    assert!(is_canonical_import_rule_id(BOUNDARY_CANONICAL_IMPORTS_RULE_ID_ALIAS));
    assert!(!is_canonical_import_rule_id("boundary.never_imports"));
}

#[test]
fn category_for_module_uses_first_path_segment() {
    assert_eq!(category_for_module("auth/login"), Some("auth"));
    assert_eq!(category_for_module("billing"), Some("billing"));
    assert_eq!(category_for_module("/leading/slash"), Some("leading"));
    assert_eq!(category_for_module("///"), None);
}

#[test]
fn layer_for_module_uses_first_path_segment() {
    assert_eq!(layer_for_module("ui/checkout"), Some("ui"));
    assert_eq!(layer_for_module("core"), Some("core"));
    assert_eq!(layer_for_module("/leading/slash"), Some("leading"));
    assert_eq!(layer_for_module("///"), None);
}

#[test]
fn module_group_skips_blank_segments_but_keeps_padding() {
    assert_eq!(module_group_segment(" / ui /x"), Some(" ui "));
    assert_eq!(module_group_segment(""), None);
    assert_eq!(module_group_segment("  "), None);
}

fn build_call(span_start: u32, span_end: u32) -> EnvelopeCall {
    EnvelopeCall { contract_id: "create_user".to_string(), line: 0, column: 0, span_start, span_end }
}

#[test]
fn filter_calls_by_span_includes_inside_calls() {
    let calls = vec![build_call(10, 20), build_call(30, 40)];

    let filtered = filter_calls_by_span(&calls, 5, 25);

    assert_eq!(filtered.len(), 1);
    assert_eq!(filtered[0].span_start, 10);
}

#[test]
fn filter_calls_by_span_excludes_outside_calls() {
    let calls = vec![build_call(10, 20)];

    let filtered = filter_calls_by_span(&calls, 25, 100);

    assert!(filtered.is_empty());
}

#[test]
fn filter_calls_by_span_keeps_boundary_calls_in_order() {
    let calls = vec![build_call(30, 40), build_call(5, 10), build_call(6, 41)];
    let filtered = filter_calls_by_span(&calls, 5, 40);
    let starts: Vec<u32> = filtered.iter().map(|c| c.span_start).collect();
    assert_eq!(starts, vec![30, 5]);
}

#[test]
fn parse_package_name_handles_unscoped_and_scoped_packages() {
    assert_eq!(parse_package_name("express/lib/router"), ("express", Some("lib/router")));
    assert_eq!(parse_package_name("express"), ("express", None));
    assert_eq!(parse_package_name("@org/pkg/internal"), ("@org/pkg", Some("internal")));
    assert_eq!(parse_package_name("@org/pkg"), ("@org/pkg", None));
}

#[test]
fn parse_package_name_scope_without_name() {
    assert_eq!(parse_package_name("@org"), ("@org", None));
    assert_eq!(parse_package_name("@org/pkg/a/b"), ("@org/pkg", Some("a/b")));
}

#[test]
fn test_import_hygiene_defaults_empty() {
    let config = SpecConfig::default();
    assert!(config.import_hygiene.deny_deep_imports.is_empty());
    assert_eq!(config.import_hygiene.test_boundary.effective_mode(), TestBoundaryMode::Off);
    assert!(config.import_hygiene.test_boundary.test_patterns.is_empty());
}

#[test]
fn reports_are_clean_only_when_empty() {
    let layer = EnforceLayerReport { violations: Vec::new(), config_issues: Vec::new() };
    assert!(layer.is_clean());
    let layer = EnforceLayerReport {
        violations: Vec::new(),
        config_issues: vec![LayerConfigIssue { module: "m".to_string(), message: "x".to_string() }],
    };
    assert!(!layer.is_clean());
    let category = EnforceCategoryReport { violations: Vec::new(), config_issues: Vec::new() };
    assert!(category.is_clean());
    let unique = UniqueExportReport { violations: Vec::new(), config_issues: Vec::new() };
    assert!(unique.is_clean());
}

#[test]
fn circular_scope_parsing() {
    let obj = |v: JsonValue| JsonValue::Object(vec![("scope".to_string(), v)]);
    assert_eq!(
        CircularScopeParam::parse(&obj(JsonValue::Str(" Internal ".to_string()))),
        Ok(CircularScopeParam::Internal)
    );
    assert_eq!(
        CircularScopeParam::parse(&obj(JsonValue::Str("EXTERNAL".to_string()))),
        Ok(CircularScopeParam::External)
    );
    assert_eq!(CircularScopeParam::parse(&obj(JsonValue::Str("sideways".to_string()))), Err(InvalidCircularScope));
    assert_eq!(CircularScopeParam::parse(&obj(JsonValue::Bool(true))), Ok(CircularScopeParam::Both));
    assert_eq!(CircularScopeParam::parse(&JsonValue::Object(Vec::new())), Ok(CircularScopeParam::Both));
    assert_eq!(CircularScopeParam::Internal.as_str(), "internal");
}

#[test]
fn dependency_policy_decisions() {
    let policy = DependencyPolicy {
        forbidden_dependencies: vec!["lodash".to_string()],
        allowed_dependencies: vec!["date-fns".to_string(), "lodash".to_string()],
        enforce_in_tests: false,
    };
    assert_eq!(
        dependency_violation_kind(&policy, "lodash", false),
        Some(DependencyViolationKind::ForbiddenDependency)
    );
    assert_eq!(
        dependency_violation_kind(&policy, "lodash", true),
        Some(DependencyViolationKind::ForbiddenDependency)
    );
    assert_eq!(
        dependency_violation_kind(&policy, "react", false),
        Some(DependencyViolationKind::DependencyNotAllowed)
    );
    assert_eq!(dependency_violation_kind(&policy, "react", true), None);
    assert_eq!(dependency_violation_kind(&policy, "date-fns", false), None);

    let open = DependencyPolicy {
        forbidden_dependencies: Vec::new(),
        allowed_dependencies: Vec::new(),
        enforce_in_tests: true,
    };
    assert_eq!(dependency_violation_kind(&open, "anything", false), None);
}

#[test]
fn dependency_violations_become_sorted_rule_violations() {
    let typed = vec![
        DependencyViolation {
            module_id: "app".to_string(),
            file: "src/b.ts".to_string(),
            specifier: "react".to_string(),
            package_name: "react".to_string(),
            kind: DependencyViolationKind::DependencyNotAllowed,
            is_test_file: false,
        },
        DependencyViolation {
            module_id: "app".to_string(),
            file: "src/a.ts".to_string(),
            specifier: "lodash/fp".to_string(),
            package_name: "lodash".to_string(),
            kind: DependencyViolationKind::ForbiddenDependency,
            is_test_file: false,
        },
    ];
    let rules = typed_violations_to_rule_violations(typed);
    assert_eq!(rules.len(), 2);
    assert_eq!(rules[0].rule, DEPENDENCY_FORBIDDEN_RULE_ID);
    assert_eq!(rules[0].message, "module 'app' forbids dependency 'lodash' (import 'lodash/fp')");
    assert_eq!(rules[0].from_file, "src/a.ts");
    assert_eq!(rules[1].rule, DEPENDENCY_NOT_ALLOWED_RULE_ID);
    assert_eq!(rules[1].message, "module 'app' does not allow dependency 'react' (import 'react')");
}
