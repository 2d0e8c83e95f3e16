use specgate::spec::config::{
    EnvelopeConfig, JestMockMode, ReleaseChannel, SpecConfig, StaleBaselinePolicy, StrictOwnershipLevel,
    UnresolvedEdgePolicy,
};

#[test]
fn config_defaults_are_stable() {
    let config = SpecConfig::default();
    assert_eq!(config.spec_dirs, vec!["."]);
    assert_eq!(config.jest_mock_mode, JestMockMode::Warn);
    assert_eq!(config.stale_baseline, StaleBaselinePolicy::Warn);
    assert_eq!(config.release_channel, ReleaseChannel::Stable);
    assert!(!config.telemetry);
    assert!(!config.enforce_type_only_imports);
    assert!(config.include_dirs.is_empty());
    assert!(!config.baseline.require_metadata);
    assert_eq!(config.strict_ownership_level, StrictOwnershipLevel::Errors);
    assert!(config.exclude.iter().any(|g| g == "**/node_modules/**"));
    assert!(config.exclude.iter().any(|g| g == "**/target/**"));
    assert!(config.exclude.iter().any(|g| g == "**/coverage/**"));
    assert!(config.exclude.iter().any(|g| g == "**/vendor/**"));
}

#[test]
fn envelope_config_defaults_are_stable() {
    let config = EnvelopeConfig::default();
    assert!(config.enabled);
    assert_eq!(config.import_patterns, vec!["specgate-envelope"]);
    assert_eq!(config.function_pattern, "boundary.validate");
}

#[test]
fn config_defaults_tsconfig_filename_to_tsconfig_json() {
    let config = SpecConfig::default();
    assert_eq!(config.tsconfig_filename, "tsconfig.json");
}

#[test]
fn config_accepts_default_tsconfig_filename() {
    assert_eq!(SpecConfig::default().validate(), Ok(()));
}

#[test]
fn config_rejects_empty_tsconfig_filename() {
    let config = SpecConfig { tsconfig_filename: String::new(), ..SpecConfig::default() };
    let err = config.validate().unwrap_err();
    assert!(err.contains("must not be empty"), "unexpected error: {err}");
}

#[test]
fn config_rejects_tsconfig_filename_with_path_separator() {
    for bad in &["subdir/tsconfig.json", "sub\\tsconfig.json"] {
        let config = SpecConfig { tsconfig_filename: bad.to_string(), ..SpecConfig::default() };
        let err = config.validate().unwrap_err();
        assert!(err.contains("must be a plain filename"), "unexpected error for '{bad}': {err}");
    }
}

#[test]
fn test_unresolved_edge_policy_defaults_to_warn() {
    let config = SpecConfig::default();
    assert_eq!(config.unresolved_edge_policy, UnresolvedEdgePolicy::Warn);
}

#[test]
fn config_rejects_tsconfig_filename_with_path_traversal() {
    let config = SpecConfig { tsconfig_filename: "../tsconfig.json".to_string(), ..SpecConfig::default() };
    let err = config.validate().unwrap_err();
    assert!(err.contains("must not use path traversal"), "unexpected error: {err}");
}

#[test]
fn test_strict_ownership_defaults_false() {
    let config = SpecConfig::default();
    assert!(!config.strict_ownership);
}

#[test]
fn test_strict_ownership_level_defaults_to_errors() {
    let config = SpecConfig::default();
    assert_eq!(config.strict_ownership_level, StrictOwnershipLevel::Errors);
}
