use specgate::spec::types::{
    Boundaries, BoundaryContract, ContractDirection, ContractMatch, EnvelopeRequirement, Visibility,
    CONTRACT_FILE_EXTENSIONS, CURRENT_SPEC_VERSION, SUPPORTED_SPEC_VERSION, SUPPORTED_SPEC_VERSIONS,
};

#[test]
fn visibility_defaults_to_public() {
    let boundaries = Boundaries::default();
    assert_eq!(boundaries.visibility_or_default(), Visibility::Public);
}

#[test]
fn supported_spec_versions_includes_2_2_and_2_3() {
    assert!(SUPPORTED_SPEC_VERSIONS.contains(&"2.2"));
    assert!(SUPPORTED_SPEC_VERSIONS.contains(&"2.3"));
    assert_eq!(SUPPORTED_SPEC_VERSIONS.len(), 2);
}

#[test]
fn legacy_supported_spec_version_alias_is_2_2() {
    assert_eq!(SUPPORTED_SPEC_VERSION, "2.2");
    assert!(SUPPORTED_SPEC_VERSIONS.contains(&SUPPORTED_SPEC_VERSION));
}

#[test]
fn current_spec_version_is_2_3() {
    assert_eq!(CURRENT_SPEC_VERSION, "2.3");
    assert!(SUPPORTED_SPEC_VERSIONS.contains(&CURRENT_SPEC_VERSION));
}

#[test]
fn contract_file_extensions_contains_expected() {
    assert!(CONTRACT_FILE_EXTENSIONS.contains(&".json"));
    assert!(CONTRACT_FILE_EXTENSIONS.contains(&".yaml"));
    assert!(CONTRACT_FILE_EXTENSIONS.contains(&".yml"));
    assert!(CONTRACT_FILE_EXTENSIONS.contains(&".ts"));
    assert!(CONTRACT_FILE_EXTENSIONS.contains(&".zod"));
    assert!(CONTRACT_FILE_EXTENSIONS.contains(&".proto"));
    assert_eq!(CONTRACT_FILE_EXTENSIONS.len(), 6);
}

#[test]
fn boundaries_defaults() {
    let boundaries = Boundaries::default();
    assert!(boundaries.path.is_none());
    assert!(boundaries.public_api.is_empty());
    assert!(boundaries.allow_imports_from.is_none());
    assert!(boundaries.never_imports.is_empty());
    assert!(boundaries.allow_type_imports_from.is_empty());
    assert!(boundaries.visibility.is_none());
    assert!(boundaries.allow_imported_by.is_empty());
    assert!(boundaries.deny_imported_by.is_empty());
    assert!(boundaries.friend_modules.is_empty());
    assert!(!boundaries.enforce_canonical_imports);
    assert!(boundaries.allowed_dependencies.is_empty());
    assert!(boundaries.forbidden_dependencies.is_empty());
    assert!(!boundaries.enforce_in_tests);
    assert!(boundaries.contracts.is_empty());
}

#[test]
fn boundary_contract_defaults() {
    let contract = BoundaryContract::default();
    assert!(contract.name.is_none());
    assert!(contract.description.is_none());
    assert_eq!(contract.direction, ContractDirection::Bidirectional);
    assert_eq!(contract.envelope, EnvelopeRequirement::Optional);
    assert!(contract.contract_match.pattern.is_empty());
}

#[test]
fn contract_match_defaults() {
    let contract_match = ContractMatch::default();
    assert!(contract_match.pattern.is_empty());
    assert!(contract_match.extensions.is_none());
    assert!(contract_match.prefix.is_none());
}

#[test]
fn contract_direction_defaults_to_bidirectional() {
    let direction: ContractDirection = Default::default();
    assert_eq!(direction, ContractDirection::Bidirectional);
}

#[test]
fn envelope_requirement_defaults_to_optional() {
    let req: EnvelopeRequirement = Default::default();
    assert_eq!(req, EnvelopeRequirement::Optional);
}
