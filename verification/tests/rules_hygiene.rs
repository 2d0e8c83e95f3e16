use specgate::graph::{DependencyGraph, EdgeKind, FileAnalysis, GraphEdge, ImportInfo, SpecifierSite};
use specgate::rules::hygiene::{
    evaluate_hygiene_rules, HYGIENE_CONFIG_ERROR_RULE_ID, HYGIENE_DEEP_THIRD_PARTY_RULE_ID,
    HYGIENE_TEST_IN_PRODUCTION_RULE_ID,
};
use specgate::rules::{RuleContext, RuleViolation};
use specgate::spec::config::{DenyDeepImportEntry, ImportHygieneConfig, SpecConfig, TestBoundaryConfig, TestBoundaryMode};
use specgate::spec::types::{
    Boundaries, ModuleDenyDeepImportEntry, ModuleImportHygiene, ModuleTestBoundaryOverride, Severity, SpecFile,
};

const ROOT: &str = "/repo";

fn spec_with_boundaries(module: &str, path: &str, boundaries: Boundaries) -> SpecFile {
    SpecFile {
        version: "2.3".to_string(),
        module: module.to_string(),
        package: None,
        import_id: None,
        import_ids: Vec::new(),
        description: None,
        boundaries: Some(Boundaries { path: Some(path.to_string()), ..boundaries }),
        constraints: Vec::new(),
        spec_path: None,
    }
}

fn file(rel: &str) -> String {
    format!("{ROOT}/{rel}")
}

/// Files with their module and their imports: (specifier, resolved target if local).
fn build_graph(files: &[(&str, &str, &[(&str, Option<&str>)])]) -> DependencyGraph {
    let mut edges = Vec::new();
    let mut file_imports = Vec::new();
    for (f, _, imports) in files {
        let mut infos = Vec::new();
        for (k, (specifier, target)) in imports.iter().enumerate() {
            let line = (k as u32) + 1;
            infos.push(ImportInfo {
                specifier: specifier.to_string(),
                span_start: line * 100,
                span_end: line * 100 + 30,
                line,
                column: 1,
                ignore_comment: None,
            });
            if let Some(t) = target {
                edges.push(GraphEdge {
                    from: file(f),
                    to: file(t),
                    specifier: specifier.to_string(),
                    kind: EdgeKind::RuntimeImport,
                    span_start: Some(line * 100),
                    span_end: Some(line * 100 + 30),
                    line: Some(line),
                    column: Some(1),
                    ignored_by_comment: false,
                });
            }
        }
        file_imports.push((file(f), infos));
    }
    DependencyGraph {
        edges,
        file_modules: files.iter().map(|(f, m, _)| (file(f), m.to_string())).collect(),
        file_imports,
        file_analyses: files
            .iter()
            .map(|(f, _, _)| FileAnalysis {
                path: file(f),
                exports: Vec::new(),
                re_exports: Vec::new(),
                require_calls: Vec::new(),
                dynamic_imports: Vec::new(),
            })
            .collect(),
    }
}

fn run_hygiene(config: &SpecConfig, specs: &[SpecFile], graph: &DependencyGraph) -> Vec<RuleViolation> {
    let ctx = RuleContext { project_root: ROOT, config, specs, graph };
    evaluate_hygiene_rules(&ctx, ROOT)
}

fn deep_config(entries: Vec<DenyDeepImportEntry>) -> SpecConfig {
    SpecConfig {
        import_hygiene: ImportHygieneConfig { deny_deep_imports: entries, ..ImportHygieneConfig::default() },
        ..SpecConfig::default()
    }
}

#[test]
fn deep_import_respects_max_depth_and_emits_warning_by_default() {
    let graph = build_graph(&[("src/app/main.ts", "app", &[("lodash/internal/deep", None)])]);
    let specs = vec![spec_with_boundaries("app", "src/app/**/*", Boundaries::default())];
    let config = deep_config(vec![DenyDeepImportEntry { pattern: "lodash/**".to_string(), max_depth: 1, severity: None }]);
    let violations = run_hygiene(&config, &specs, &graph);
    assert_eq!(violations.len(), 1);
    assert_eq!(violations[0].rule, HYGIENE_DEEP_THIRD_PARTY_RULE_ID);
    assert_eq!(violations[0].severity, Some(Severity::Warning));
    assert_eq!(violations[0].message, "deep import into 'lodash' exceeds max depth 1: 'lodash/internal/deep'");
    assert_eq!((violations[0].line, violations[0].column), (Some(1), Some(1)));
}

#[test]
fn module_override_allow_suppresses_matching_config_entry() {
    let graph = build_graph(&[("src/app/main.ts", "app", &[("internal-sdk/testing", None)])]);
    let specs = vec![spec_with_boundaries(
        "app",
        "src/app/**/*",
        Boundaries {
            import_hygiene: Some(ModuleImportHygiene {
                deny_deep_imports: vec![ModuleDenyDeepImportEntry {
                    pattern: "internal-sdk/**".to_string(),
                    max_depth: None,
                    allow: true,
                }],
                test_boundary: None,
            }),
            ..Boundaries::default()
        },
    )];
    let config =
        deep_config(vec![DenyDeepImportEntry { pattern: "*".to_string(), max_depth: 0, severity: Some(Severity::Error) }]);
    let violations = run_hygiene(&config, &specs, &graph);
    assert!(violations.is_empty());
}

#[test]
fn config_entry_without_module_override_reports_errors() {
    let graph = build_graph(&[("src/app/main.ts", "app", &[("internal-sdk/testing", None), ("react", None)])]);
    let specs = vec![spec_with_boundaries("app", "src/app/**/*", Boundaries::default())];
    let config =
        deep_config(vec![DenyDeepImportEntry { pattern: "*".to_string(), max_depth: 0, severity: Some(Severity::Error) }]);
    let violations = run_hygiene(&config, &specs, &graph);
    assert_eq!(violations.len(), 1);
    assert_eq!(violations[0].severity, Some(Severity::Error));
    assert_eq!(violations[0].message, "deep import into 'internal-sdk' is not allowed: 'internal-sdk/testing'");
}

#[test]
fn bidirectional_mode_blocks_cross_module_test_internal_imports() {
    let graph = build_graph(&[
        ("src/app/main.test.ts", "app", &[("../core/internal", Some("src/core/internal.ts"))]),
        ("src/core/internal.ts", "core", &[]),
        ("src/core/index.ts", "core", &[]),
    ]);
    let specs = vec![
        spec_with_boundaries("app", "src/app/**/*", Boundaries::default()),
        spec_with_boundaries(
            "core",
            "src/core/**/*",
            Boundaries { public_api: vec!["src/core/index.ts".to_string()], ..Boundaries::default() },
        ),
    ];
    let config = SpecConfig {
        import_hygiene: ImportHygieneConfig {
            test_boundary: TestBoundaryConfig {
                enabled: true,
                mode: TestBoundaryMode::Bidirectional,
                test_patterns: Vec::new(),
            },
            ..ImportHygieneConfig::default()
        },
        ..SpecConfig::default()
    };
    let violations = run_hygiene(&config, &specs, &graph);
    assert_eq!(violations.len(), 1);
    assert_eq!(violations[0].rule, HYGIENE_TEST_IN_PRODUCTION_RULE_ID);
    assert!(violations[0].message.contains("non-public file"));
    assert_eq!(violations[0].message, "test file imports non-public file 'src/core/internal.ts' from module 'core'");
}

#[test]
fn module_override_can_disable_test_boundary_checks() {
    let graph = build_graph(&[
        ("src/app/main.ts", "app", &[("../tests/helper", Some("src/tests/helper.ts"))]),
        ("src/tests/helper.ts", "tests", &[]),
    ]);
    let mut specs = vec![
        spec_with_boundaries(
            "app",
            "src/app/**/*",
            Boundaries {
                import_hygiene: Some(ModuleImportHygiene {
                    deny_deep_imports: Vec::new(),
                    test_boundary: Some(ModuleTestBoundaryOverride { mode: TestBoundaryMode::Off }),
                }),
                ..Boundaries::default()
            },
        ),
        spec_with_boundaries("tests", "src/tests/**/*", Boundaries::default()),
    ];
    let config = SpecConfig {
        import_hygiene: ImportHygieneConfig {
            test_boundary: TestBoundaryConfig {
                enabled: true,
                mode: TestBoundaryMode::ProductionOnly,
                test_patterns: vec!["src/tests/**/*".to_string()],
            },
            ..ImportHygieneConfig::default()
        },
        ..SpecConfig::default()
    };
    let violations = run_hygiene(&config, &specs, &graph);
    assert!(violations.is_empty());

    specs[0].boundaries.as_mut().expect("boundaries").import_hygiene = None;
    let violations = run_hygiene(&config, &specs, &graph);
    assert_eq!(violations.len(), 1);
    assert_eq!(violations[0].message, "production file imports from test file 'src/tests/helper.ts'");
    assert_eq!(violations[0].to_file, Some(file("src/tests/helper.ts")));
}

#[test]
fn invalid_test_pattern_is_a_config_error() {
    let graph = build_graph(&[]);
    let config = SpecConfig {
        import_hygiene: ImportHygieneConfig {
            test_boundary: TestBoundaryConfig {
                enabled: true,
                mode: TestBoundaryMode::ProductionOnly,
                test_patterns: vec!["[".to_string()],
            },
            ..ImportHygieneConfig::default()
        },
        ..SpecConfig::default()
    };
    let violations = run_hygiene(&config, &[], &graph);
    assert_eq!(violations.len(), 1);
    assert_eq!(violations[0].rule, HYGIENE_CONFIG_ERROR_RULE_ID);
    assert_eq!(violations[0].from_file, "/repo/specgate.config.yml");
    assert!(violations[0].message.starts_with("invalid test pattern glob: pattern '[' is invalid: "));
}

#[test]
fn require_and_dynamic_imports_are_checked_too() {
    let mut graph = build_graph(&[("src/app/main.ts", "app", &[])]);
    graph.file_analyses[0].require_calls =
        vec![SpecifierSite { specifier: "@org/pkg/a/b".to_string(), line: 3, column: 5 }];
    graph.file_analyses[0].dynamic_imports =
        vec![SpecifierSite { specifier: "@org/pkg/a".to_string(), line: 4, column: 2 }];
    let specs = vec![spec_with_boundaries("app", "src/app/**/*", Boundaries::default())];
    let config = deep_config(vec![DenyDeepImportEntry { pattern: "@org/pkg".to_string(), max_depth: 1, severity: None }]);
    let violations = run_hygiene(&config, &specs, &graph);
    assert_eq!(violations.len(), 1);
    assert_eq!((violations[0].line, violations[0].column), (Some(3), Some(5)));
    assert_eq!(violations[0].message, "deep import into '@org/pkg' exceeds max depth 1: '@org/pkg/a/b'");
}
