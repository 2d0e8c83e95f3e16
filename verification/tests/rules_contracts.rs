use specgate::rules::contracts::{
    evaluate_contract_rules, join_path, ContractDeclaration, ContractFileFacts, ContractRuleViolation,
    ContractSpec, BOUNDARY_CONTRACT_EMPTY_RULE_ID, BOUNDARY_CONTRACT_MISSING_RULE_ID,
    BOUNDARY_CONTRACT_REF_INVALID_RULE_ID, BOUNDARY_MATCH_UNRESOLVED_RULE_ID,
};

const ROOT: &str = "/work/project";

fn spec_with_contracts(module: &str, contracts: Vec<ContractDeclaration>) -> ContractSpec {
    ContractSpec {
        module: module.to_string(),
        spec_path: Some(format!("{module}.spec.yml")),
        contracts,
    }
}

fn create_test_contract(id: &str, contract_path: &str, files: Vec<&str>, imports_contract: Vec<&str>) -> ContractDeclaration {
    ContractDeclaration {
        id: id.to_string(),
        contract: contract_path.to_string(),
        match_files: files.into_iter().map(String::from).collect(),
        imports_contract: imports_contract.into_iter().map(String::from).collect(),
    }
}

fn present(path: &str, len: u64) -> ContractFileFacts {
    ContractFileFacts { path: path.to_string(), exists: true, byte_len: Some(len) }
}

fn files(paths: &[&str]) -> Vec<String> {
    paths.iter().map(|p| p.to_string()).collect()
}

fn evaluate(
    specs: &[ContractSpec],
    facts: &[ContractFileFacts],
    project_files: &[String],
    affected: Option<&Vec<String>>,
) -> Vec<ContractRuleViolation> {
    evaluate_contract_rules(ROOT, specs, facts, project_files, affected)
}

#[test]
fn reports_missing_contract_file() {
    let specs = vec![spec_with_contracts(
        "api",
        vec![create_test_contract("contract1", "contracts/api.json", vec![], vec![])],
    )];
    let violations = evaluate(&specs, &[], &files(&["src/api/index.ts"]), None);

    assert_eq!(violations.len(), 1);
    assert_eq!(violations[0].violation.rule, BOUNDARY_CONTRACT_MISSING_RULE_ID);
    assert_eq!(violations[0].contract_id, "contract1");
    assert!(violations[0].remediation_hint.contains("Create the contract file"));
}

#[test]
fn reports_empty_contract_file() {
    let specs = vec![spec_with_contracts(
        "api",
        vec![create_test_contract("contract1", "contracts/api.json", vec![], vec![])],
    )];
    let violations = evaluate(
        &specs,
        &[present("contracts/api.json", 0)],
        &files(&["contracts/api.json", "src/api/index.ts"]),
        None,
    );

    assert_eq!(violations.len(), 1);
    assert_eq!(violations[0].violation.rule, BOUNDARY_CONTRACT_EMPTY_RULE_ID);
    assert_eq!(violations[0].contract_id, "contract1");
    assert!(violations[0].remediation_hint.contains("Add schema/content"));
}

#[test]
fn passes_valid_contract_file() {
    let specs = vec![spec_with_contracts(
        "api",
        vec![create_test_contract("contract1", "contracts/api.json", vec![], vec![])],
    )];
    let violations = evaluate(
        &specs,
        &[present("contracts/api.json", 18)],
        &files(&["contracts/api.json", "src/api/index.ts"]),
        None,
    );

    assert!(violations.is_empty());
}

#[test]
fn reports_unresolved_match_patterns() {
    let specs = vec![spec_with_contracts(
        "api",
        vec![create_test_contract("contract1", "contracts/api.json", vec!["src/api/nonexistent/**/*.ts"], vec![])],
    )];
    let violations = evaluate(
        &specs,
        &[present("contracts/api.json", 18)],
        &files(&["contracts/api.json", "src/api/existing.ts"]),
        None,
    );

    assert_eq!(violations.len(), 1);
    assert_eq!(violations[0].violation.rule, BOUNDARY_MATCH_UNRESOLVED_RULE_ID);
    assert_eq!(violations[0].contract_id, "contract1");
}

#[test]
fn passes_resolved_match_patterns() {
    let specs = vec![spec_with_contracts(
        "api",
        vec![create_test_contract("contract1", "contracts/api.json", vec!["src/api/handlers/*.ts"], vec![])],
    )];
    let violations = evaluate(
        &specs,
        &[present("contracts/api.json", 18)],
        &files(&["contracts/api.json", "src/api/handlers/get.ts"]),
        None,
    );

    assert!(violations.is_empty());
}

#[test]
fn reports_invalid_contract_ref_format() {
    let specs = vec![spec_with_contracts(
        "api",
        vec![create_test_contract("contract1", "contracts/api.json", vec![], vec!["invalid-format-without-colon"])],
    )];
    let violations = evaluate(&specs, &[present("contracts/api.json", 18)], &files(&["contracts/api.json"]), None);

    assert_eq!(violations.len(), 1);
    assert_eq!(violations[0].violation.rule, BOUNDARY_CONTRACT_REF_INVALID_RULE_ID);
    assert!(violations[0].violation.message.contains("invalid format"));
}

#[test]
fn reports_nonexistent_contract_ref() {
    let specs = vec![
        spec_with_contracts(
            "api",
            vec![create_test_contract("contract1", "contracts/api.json", vec![], vec!["other:nonexistent_contract"])],
        ),
        spec_with_contracts("other", vec![]),
    ];
    let violations = evaluate(&specs, &[present("contracts/api.json", 18)], &files(&["contracts/api.json"]), None);

    assert_eq!(violations.len(), 1);
    assert_eq!(violations[0].violation.rule, BOUNDARY_CONTRACT_REF_INVALID_RULE_ID);
    assert!(violations[0].violation.message.contains("contract not found"));
}

#[test]
fn passes_valid_contract_ref() {
    let specs = vec![
        spec_with_contracts(
            "api",
            vec![create_test_contract("contract1", "contracts/api.json", vec![], vec!["other:other_contract"])],
        ),
        spec_with_contracts(
            "other",
            vec![create_test_contract("other_contract", "contracts/other.yaml", vec![], vec![])],
        ),
    ];
    let violations = evaluate(
        &specs,
        &[present("contracts/api.json", 18), present("contracts/other.yaml", 12)],
        &files(&["contracts/api.json", "contracts/other.yaml"]),
        None,
    );

    assert!(violations.is_empty());
}

#[test]
fn affected_modules_filter_limits_evaluation() {
    let specs = vec![
        spec_with_contracts(
            "api",
            vec![create_test_contract("api_contract", "contracts/api.json", vec![], vec![])],
        ),
        spec_with_contracts(
            "other",
            vec![create_test_contract("other_contract", "contracts/missing.yaml", vec![], vec![])],
        ),
    ];
    let facts = [present("contracts/api.json", 18)];
    let project_files = files(&["contracts/api.json"]);

    let affected = vec!["api".to_string()];
    let violations = evaluate(&specs, &facts, &project_files, Some(&affected));
    assert!(violations.is_empty());

    let violations = evaluate(&specs, &facts, &project_files, None);
    assert_eq!(violations.len(), 1);
    assert!(violations[0].violation.message.contains("other_contract"));
}

#[test]
fn empty_affected_modules_returns_no_violations() {
    let specs = vec![spec_with_contracts(
        "api",
        vec![create_test_contract("contract1", "contracts/api.json", vec![], vec![])],
    )];
    let affected: Vec<String> = Vec::new();
    let violations = evaluate(&specs, &[present("contracts/api.json", 18)], &files(&["contracts/api.json"]), Some(&affected));

    assert!(violations.is_empty());
}

#[test]
fn multiple_violations_per_contract_are_reported() {
    let specs = vec![spec_with_contracts(
        "api",
        vec![create_test_contract(
            "multi_violation",
            "contracts/api.json",
            vec!["src/nonexistent/**/*.ts"],
            vec!["invalid-ref"],
        )],
    )];
    let violations = evaluate(&specs, &[present("contracts/api.json", 0)], &files(&["contracts/api.json"]), None);

    assert_eq!(violations.len(), 3);
    let rules: Vec<&str> = violations.iter().map(|v| v.violation.rule.as_str()).collect();
    assert!(rules.contains(&BOUNDARY_CONTRACT_EMPTY_RULE_ID));
    assert!(rules.contains(&BOUNDARY_MATCH_UNRESOLVED_RULE_ID));
    assert!(rules.contains(&BOUNDARY_CONTRACT_REF_INVALID_RULE_ID));
}

#[test]
fn glob_with_literal_separator_matches_correctly() {
    let specs = vec![spec_with_contracts(
        "api",
        vec![create_test_contract("contract1", "contracts/api.json", vec!["src/api/handlers/*.ts"], vec![])],
    )];
    let violations = evaluate(
        &specs,
        &[present("contracts/api.json", 18)],
        &files(&["contracts/api.json", "src/api/handlers/get.ts", "src/api/handlers/nested/post.ts"]),
        None,
    );

    assert!(violations.is_empty());
}

#[test]
fn missing_spec_path_uses_project_root() {
    let mut spec = spec_with_contracts(
        "api",
        vec![create_test_contract("contract1", "contracts/missing.json", vec![], vec![])],
    );
    spec.spec_path = None;
    let violations = evaluate(&[spec], &[], &[], None);

    assert_eq!(violations.len(), 1);
    assert_eq!(violations[0].violation.from_file, ROOT);
}

#[test]
fn literal_separator_keeps_star_within_one_directory() {
    let specs = vec![spec_with_contracts(
        "api",
        vec![create_test_contract("contract1", "contracts/api.json", vec!["src/api/handlers/*.ts"], vec![])],
    )];
    let violations = evaluate(
        &specs,
        &[present("contracts/api.json", 18)],
        &files(&["contracts/api.json", "src/api/handlers/nested/post.ts"]),
        None,
    );

    assert_eq!(violations.len(), 1);
    assert_eq!(
        violations[0].violation.message,
        "Match patterns for contract 'contract1' in module 'api' did not resolve to any files: [\"src/api/handlers/*.ts\"]"
    );
}

#[test]
fn invalid_glob_counts_as_unresolved() {
    let specs = vec![spec_with_contracts(
        "api",
        vec![create_test_contract("contract1", "contracts/api.json", vec!["src/[", "lib/*.js"], vec![])],
    )];
    let violations = evaluate(&specs, &[present("contracts/api.json", 18)], &files(&["src/[", "lib/a/b.js"]), None);

    assert_eq!(violations.len(), 1);
    assert_eq!(violations[0].violation.rule, BOUNDARY_MATCH_UNRESOLVED_RULE_ID);
    assert!(violations[0].violation.message.ends_with("[\"src/[\", \"lib/*.js\"]"));
}

#[test]
fn missing_contract_message_and_source() {
    let specs = vec![spec_with_contracts(
        "api",
        vec![create_test_contract("contract1", "contracts/api.json", vec![], vec![])],
    )];
    let facts = [ContractFileFacts { path: "contracts/api.json".to_string(), exists: false, byte_len: None }];
    let violations = evaluate(&specs, &facts, &[], None);

    assert_eq!(violations.len(), 1);
    let v = &violations[0].violation;
    assert_eq!(v.message, "Contract file 'contracts/api.json' not found for contract 'contract1' in module 'api'");
    assert_eq!(v.from_file, "api.spec.yml");
    assert_eq!(v.to_file, None);
    assert_eq!(v.from_module.as_deref(), Some("api"));
    assert_eq!(
        violations[0].remediation_hint,
        "Create the contract file at 'contracts/api.json' (relative to project root), or update `boundaries.contracts[].contract` to the correct existing path"
    );
}

#[test]
fn empty_contract_points_at_joined_path() {
    let specs = vec![spec_with_contracts(
        "api",
        vec![create_test_contract("contract1", "contracts/api.json", vec![], vec![])],
    )];
    let violations = evaluate(&specs, &[present("contracts/api.json", 0)], &[], None);

    assert_eq!(violations[0].violation.to_file.as_deref(), Some("/work/project/contracts/api.json"));
    assert_eq!(violations[0].violation.message, "Contract file 'contracts/api.json' is empty for contract 'contract1' in module 'api'");
}

#[test]
fn unreadable_length_is_not_reported() {
    let specs = vec![spec_with_contracts(
        "api",
        vec![create_test_contract("contract1", "contracts/api.json", vec![], vec![])],
    )];
    let facts = [ContractFileFacts { path: "contracts/api.json".to_string(), exists: true, byte_len: None }];

    assert!(evaluate(&specs, &facts, &[], None).is_empty());
}

#[test]
fn invalid_references_are_listed_together() {
    let specs = vec![spec_with_contracts(
        "api",
        vec![create_test_contract(
            "contract1",
            "contracts/api.json",
            vec![],
            vec!["a:b:c", ":x", "api:contract1", "web:missing"],
        )],
    )];
    let violations = evaluate(&specs, &[present("contracts/api.json", 3)], &[], None);

    assert_eq!(violations.len(), 1);
    assert_eq!(
        violations[0].violation.message,
        "Invalid imports_contract references for contract 'contract1' in module 'api': 'a:b:c' (invalid format (expected 'module:contract_id')), ':x' (invalid format (expected 'module:contract_id')), 'web:missing' (contract not found in target module)"
    );
}

#[test]
fn violations_sorted_by_source_contract_and_rule() {
    let specs = vec![
        spec_with_contracts(
            "web",
            vec![create_test_contract("zeta", "contracts/z.json", vec![], vec!["bad"])],
        ),
        spec_with_contracts(
            "api",
            vec![
                create_test_contract("beta", "contracts/b.json", vec![], vec![]),
                create_test_contract("alpha", "contracts/a.json", vec!["nothing/*"], vec![]),
            ],
        ),
    ];
    let violations = evaluate(&specs, &[present("contracts/a.json", 0)], &[], None);
    let keys: Vec<(String, String, String)> = violations
        .iter()
        .map(|v| (v.violation.from_file.clone(), v.contract_id.clone(), v.violation.rule.clone()))
        .collect();

    assert_eq!(
        keys,
        vec![
            ("api.spec.yml".to_string(), "alpha".to_string(), BOUNDARY_CONTRACT_EMPTY_RULE_ID.to_string()),
            ("api.spec.yml".to_string(), "alpha".to_string(), BOUNDARY_MATCH_UNRESOLVED_RULE_ID.to_string()),
            ("api.spec.yml".to_string(), "beta".to_string(), BOUNDARY_CONTRACT_MISSING_RULE_ID.to_string()),
            ("web.spec.yml".to_string(), "zeta".to_string(), BOUNDARY_CONTRACT_MISSING_RULE_ID.to_string()),
            ("web.spec.yml".to_string(), "zeta".to_string(), BOUNDARY_CONTRACT_REF_INVALID_RULE_ID.to_string()),
        ]
    );
}

#[test]
fn join_path_follows_path_join() {
    assert_eq!(join_path("/root", "a/b.json"), "/root/a/b.json");
    assert_eq!(join_path("/root/", "a.json"), "/root/a.json");
    assert_eq!(join_path("/root", "/abs/a.json"), "/abs/a.json");
    assert_eq!(join_path("", "a.json"), "a.json");
}

#[test]
fn naming_every_module_matches_unscoped_evaluation() {
    let specs = vec![
        spec_with_contracts("api", vec![create_test_contract("a", "contracts/a.json", vec!["x/*"], vec!["b:c"])]),
        spec_with_contracts("web", vec![create_test_contract("w", "contracts/w.json", vec![], vec![])]),
    ];
    let facts = [present("contracts/a.json", 0)];
    let all = vec!["web".to_string(), "api".to_string()];
    let scoped = evaluate(&specs, &facts, &[], Some(&all));
    let unscoped = evaluate(&specs, &facts, &[], None);

    assert_eq!(scoped, unscoped);
    assert_eq!(unscoped.len(), 4);
}

#[test]
fn references_resolve_against_modules_outside_the_scope() {
    let specs = vec![
        spec_with_contracts("api", vec![create_test_contract("a", "contracts/a.json", vec![], vec!["web:w"])]),
        spec_with_contracts("web", vec![create_test_contract("w", "contracts/w.json", vec![], vec![])]),
    ];
    let facts = [present("contracts/a.json", 5)];
    let affected = vec!["api".to_string()];

    assert!(evaluate(&specs, &facts, &[], Some(&affected)).is_empty());
}
