use specgate::rules::boundary::{BOUNDARY_CANONICAL_IMPORTS_RULE_ID_ALIAS, BOUNDARY_CONTRACT_VERSION_MISMATCH_RULE_ID};
use specgate::spec::types::{
    Boundaries, BoundaryContract, Constraint, ContractDirection, ContractMatch, EnvelopeRequirement, JsonValue,
    Severity, SpecFile,
};
use specgate::spec::validation::{validate_imports_contract_format, validate_specs, ValidationLevel};

fn base_spec(module: &str) -> SpecFile {
    SpecFile {
        version: "2.2".to_string(),
        module: module.to_string(),
        package: None,
        import_id: None,
        import_ids: Vec::new(),
        description: None,
        boundaries: None,
        constraints: Vec::new(),
        spec_path: None,
    }
}

fn constraint(rule: &str, severity: Severity) -> Constraint {
    Constraint { rule: rule.to_string(), params: JsonValue::Object(Vec::new()), severity, message: None }
}

fn contract() -> BoundaryContract {
    BoundaryContract {
        name: Some("test_contract".to_string()),
        description: None,
        direction: ContractDirection::Bidirectional,
        contract_match: ContractMatch {
            pattern: "src/**/*.ts".to_string(),
            extensions: None,
            prefix: None,
        },
        envelope: EnvelopeRequirement::Optional,
    }
}

#[test]
fn duplicate_module_is_error() {
    let specs = vec![base_spec("orders"), base_spec("orders")];
    let report = validate_specs(&specs);
    assert!(report.has_errors());
    assert!(report.errors().iter().any(|issue| issue.message.contains("duplicate module")));
}

#[test]
fn invalid_rule_is_error() {
    let mut spec = base_spec("orders");
    spec.constraints.push(constraint("unknown-rule", Severity::Error));
    let report = validate_specs(&[spec]);
    assert!(report.has_errors());
}

#[test]
fn boundary_constraint_rules_are_supported() {
    let mut spec = base_spec("orders");
    spec.constraints = vec![
        constraint("boundary.never_imports", Severity::Warning),
        constraint(BOUNDARY_CANONICAL_IMPORTS_RULE_ID_ALIAS, Severity::Error),
    ];
    let report = validate_specs(&[spec]);
    assert_eq!(report.errors().len(), 0);
}

#[test]
fn overlap_is_warning() {
    let mut spec = base_spec("orders");
    spec.boundaries = Some(Boundaries {
        allow_imports_from: Some(vec!["payments".to_string()]),
        never_imports: vec!["payments".to_string()],
        ..Boundaries::default()
    });
    let report = validate_specs(&[spec]);
    assert_eq!(report.errors().len(), 0);
    assert!(report
        .warnings()
        .iter()
        .any(|issue| issue.message.contains("both allow_imports_from and never_imports")));
}

#[test]
fn provider_overlap_is_warning() {
    let mut spec = base_spec("orders");
    spec.boundaries = Some(Boundaries {
        allow_imported_by: vec!["api".to_string()],
        deny_imported_by: vec!["api".to_string()],
        ..Boundaries::default()
    });
    let report = validate_specs(&[spec]);
    assert_eq!(report.errors().len(), 0);
    assert!(report
        .warnings()
        .iter()
        .any(|issue| issue.message.contains("both allow_imported_by and deny_imported_by")));
}

#[test]
fn invalid_public_api_glob_is_error() {
    let mut spec = base_spec("orders");
    spec.boundaries = Some(Boundaries { public_api: vec!["[".to_string()], ..Boundaries::default() });
    let report = validate_specs(&[spec]);
    assert!(report.has_errors());
    assert!(report
        .errors()
        .iter()
        .any(|issue| issue.message.contains("invalid boundaries.public_api glob pattern")));
}

#[test]
fn duplicate_canonical_id_is_error() {
    let mut a = base_spec("orders");
    a.import_id = Some("@app/core".to_string());
    let mut b = base_spec("payments");
    b.import_ids = vec!["@app/core".to_string()];
    let report = validate_specs(&[a, b]);
    assert!(report.errors().iter().any(|issue| issue.message.contains("canonical import id")));
}

#[test]
fn spec_version_2_2_is_valid() {
    let spec = base_spec("orders");
    let report = validate_specs(&[spec]);
    assert!(!report.has_errors(), "spec version 2.2 should be valid");
}

#[test]
fn spec_version_2_3_is_valid() {
    let mut spec = base_spec("orders");
    spec.version = "2.3".to_string();
    let report = validate_specs(&[spec]);
    assert!(!report.has_errors(), "spec version 2.3 should be valid");
}

#[test]
fn unsupported_spec_version_is_error() {
    let mut spec = base_spec("orders");
    spec.version = "2.0".to_string();
    let report = validate_specs(&[spec]);
    assert!(report.has_errors(), "unsupported version should be error");
    assert!(
        report
            .errors()
            .iter()
            .any(|issue| issue.message.contains("unsupported spec version") && issue.message.contains("2.0")),
        "error should mention unsupported version 2.0"
    );
}

#[test]
fn contracts_in_2_2_spec_emits_version_mismatch_error() {
    let mut spec = base_spec("orders");
    spec.boundaries = Some(Boundaries { contracts: vec![contract()], ..Boundaries::default() });
    let report = validate_specs(&[spec]);
    assert!(report.has_errors(), "contracts in 2.2 spec should be error");
    assert!(
        report.errors().iter().any(|issue| {
            issue.message.contains(BOUNDARY_CONTRACT_VERSION_MISMATCH_RULE_ID) && issue.message.contains("upgrade to 2.3")
        }),
        "error should mention boundary.contract_version_mismatch and upgrade hint"
    );
}

#[test]
fn empty_contracts_in_2_2_spec_is_valid() {
    let mut spec = base_spec("orders");
    spec.boundaries = Some(Boundaries { contracts: vec![], ..Boundaries::default() });
    let report = validate_specs(&[spec]);
    assert!(!report.has_errors(), "empty contracts in 2.2 spec should be valid");
}

#[test]
fn contracts_in_2_3_spec_are_accepted() {
    let mut spec = base_spec("orders");
    spec.version = "2.3".to_string();
    spec.boundaries = Some(Boundaries { contracts: vec![contract()], ..Boundaries::default() });
    let report = validate_specs(&[spec]);
    assert!(report.issues.is_empty());
}

#[test]
fn unsupported_version_message_lists_supported_versions() {
    let mut spec = base_spec("orders");
    spec.version = " 9.9 ".to_string();
    spec.spec_path = Some("modules/orders.spec.yml".to_string());
    let report = validate_specs(&[spec]);
    assert_eq!(report.issues.len(), 1);
    let issue = &report.issues[0];
    assert_eq!(issue.level, ValidationLevel::Error);
    assert_eq!(issue.module, "orders");
    assert_eq!(issue.spec_path, Some("modules/orders.spec.yml".to_string()));
    assert_eq!(issue.message, "unsupported spec version ' 9.9 '; expected one of [\"2.2\", \"2.3\"]");
}

#[test]
fn version_is_trimmed_before_checking() {
    let mut spec = base_spec("orders");
    spec.version = "  2.3\n".to_string();
    let report = validate_specs(&[spec]);
    assert!(report.issues.is_empty());
}

#[test]
fn blank_module_is_error() {
    let spec = base_spec("   ");
    let report = validate_specs(&[spec]);
    assert_eq!(report.issues.len(), 1);
    assert_eq!(report.issues[0].message, "module must be non-empty");
}

#[test]
fn unknown_rule_message_names_the_rule() {
    let mut spec = base_spec("orders");
    spec.constraints.push(constraint("enforce-layer", Severity::Error));
    spec.constraints.push(constraint("no-such-rule", Severity::Error));
    let report = validate_specs(&[spec]);
    assert_eq!(report.issues.len(), 1);
    assert!(report.issues[0].message.starts_with("unknown constraint rule 'no-such-rule'; expected one of [\"no-circular-deps\", "));
    assert!(report.issues[0].message.ends_with("\"boundary.envelope_missing\"]"));
}

#[test]
fn duplicate_module_names_previous_path() {
    let mut a = base_spec("orders");
    a.spec_path = Some("a.spec.yml".to_string());
    let b = base_spec("orders");
    let mut c = base_spec("orders");
    c.spec_path = Some("c.spec.yml".to_string());
    let report = validate_specs(&[a, b, c]);
    let messages: Vec<&str> = report.issues.iter().map(|i| i.message.as_str()).collect();
    assert_eq!(
        messages,
        vec![
            "duplicate module 'orders' (previous declaration at Some(\"a.spec.yml\"))",
            "duplicate module 'orders' (previous declaration at None)",
        ]
    );
}

#[test]
fn canonical_id_conflicts_name_first_owner() {
    let mut a = base_spec("orders");
    a.import_id = Some(" @app/core ".to_string());
    let mut b = base_spec("payments");
    b.import_ids = vec!["@app/core".to_string(), "@app/pay".to_string()];
    let mut c = base_spec("billing");
    c.import_ids = vec!["@app/pay".to_string(), "@app/core".to_string()];
    let mut d = base_spec("orders");
    d.spec_path = Some("again.yml".to_string());
    d.import_ids = vec!["@app/core".to_string()];
    let report = validate_specs(&[a, b, c, d]);
    let messages: Vec<&str> = report.issues.iter().map(|i| i.message.as_str()).collect();
    assert_eq!(
        messages,
        vec![
            "canonical import id '@app/core' already declared by module 'orders'",
            "canonical import id '@app/core' already declared by module 'orders'",
            "canonical import id '@app/pay' already declared by module 'payments'",
            "duplicate module 'orders' (previous declaration at None)",
        ]
    );
}

#[test]
fn overlap_warnings_are_sorted_and_deduplicated() {
    let mut spec = base_spec("orders");
    spec.boundaries = Some(Boundaries {
        allow_imports_from: Some(vec!["zeta".to_string(), "alpha".to_string(), "zeta".to_string()]),
        never_imports: vec!["zeta".to_string(), "alpha".to_string(), "beta".to_string()],
        ..Boundaries::default()
    });
    let report = validate_specs(&[spec]);
    let messages: Vec<&str> = report.issues.iter().map(|i| i.message.as_str()).collect();
    assert_eq!(
        messages,
        vec![
            "module 'alpha' is in both allow_imports_from and never_imports",
            "module 'zeta' is in both allow_imports_from and never_imports",
        ]
    );
    assert!(report.issues.iter().all(|i| i.level == ValidationLevel::Warning));
}

#[test]
fn invalid_path_glob_and_missing_canonical_id() {
    let mut spec = base_spec("orders");
    spec.boundaries = Some(Boundaries {
        path: Some("src/[".to_string()),
        enforce_canonical_imports: true,
        ..Boundaries::default()
    });
    let report = validate_specs(&[spec]);
    let messages: Vec<&str> = report.issues.iter().map(|i| i.message.as_str()).collect();
    assert_eq!(
        messages,
        vec![
            "invalid boundaries.path glob pattern: 'src/['",
            "enforce_canonical_imports is true but module declares no import_id/import_ids",
        ]
    );
    assert_eq!(report.errors().len(), 1);
    assert_eq!(report.warnings().len(), 1);
}

#[test]
fn imports_contract_format_errors() {
    assert_eq!(validate_imports_contract_format("api/handlers:create_user"), Ok(()));
    assert_eq!(
        validate_imports_contract_format("invalid_format"),
        Err("imports_contract 'invalid_format' must contain exactly one colon separating module and contract id"
            .to_string())
    );
    assert_eq!(
        validate_imports_contract_format(":contract_id"),
        Err("imports_contract ':contract_id' has empty module segment".to_string())
    );
    assert_eq!(
        validate_imports_contract_format("module:"),
        Err("imports_contract 'module:' has empty contract id segment".to_string())
    );
}
