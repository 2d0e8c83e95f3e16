use specgate::graph::{DependencyGraph, EdgeKind, GraphEdge, ImportInfo};
use specgate::rules::boundary::{
    evaluate_boundary_rules, BOUNDARY_CANONICAL_IMPORT_RULE_ID,
};
use specgate::rules::{compile_optional_globset_strict, render_glob_error, GlobCompileError, RuleContext, RuleViolation};
use specgate::spec::config::SpecConfig;
use specgate::spec::types::{Boundaries, SpecFile, Visibility};

const ROOT: &str = "/repo";

fn spec_with_boundaries(module: &str, path: &str, boundaries: Boundaries) -> SpecFile {
    SpecFile {
        version: "2.2".to_string(),
        module: module.to_string(),
        package: None,
        import_id: None,
        import_ids: Vec::new(),
        description: None,
        boundaries: Some(Boundaries { path: Some(path.to_string()), ..boundaries }),
        constraints: Vec::new(),
        spec_path: None,
    }
}

fn file(rel: &str) -> String {
    format!("{ROOT}/{rel}")
}

/// An import statement at `line` of `from`, importing `to` by `specifier`.
struct Import<'a> {
    from: &'a str,
    to: &'a str,
    specifier: &'a str,
    kind: EdgeKind,
    line: u32,
    ignored: bool,
}

fn imp<'a>(from: &'a str, to: &'a str, specifier: &'a str, line: u32) -> Import<'a> {
    Import { from, to, specifier, kind: EdgeKind::RuntimeImport, line, ignored: false }
}

fn graph(files: &[(&str, &str)], imports: &[Import]) -> DependencyGraph {
    let mut edges = Vec::new();
    let mut file_imports: Vec<(String, Vec<ImportInfo>)> = Vec::new();
    for (k, i) in imports.iter().enumerate() {
        let start = (k as u32) * 100;
        edges.push(GraphEdge {
            from: file(i.from),
            to: file(i.to),
            specifier: i.specifier.to_string(),
            kind: i.kind,
            span_start: Some(start),
            span_end: Some(start + 40),
            line: None,
            column: None,
            ignored_by_comment: false,
        });
        let info = ImportInfo {
            specifier: i.specifier.to_string(),
            span_start: start,
            span_end: start + 40,
            line: i.line,
            column: 1,
            ignore_comment: if i.ignored { Some("temporary".to_string()) } else { None },
        };
        match file_imports.iter_mut().find(|(f, _)| *f == file(i.from)) {
            Some((_, list)) => list.push(info),
            None => file_imports.push((file(i.from), vec![info])),
        }
    }
    DependencyGraph {
        edges,
        file_modules: files.iter().map(|(f, m)| (file(f), m.to_string())).collect(),
        file_imports,
        file_analyses: Vec::new(),
    }
}

fn run_engine(config: &SpecConfig, specs: &[SpecFile], graph: &DependencyGraph) -> Vec<RuleViolation> {
    let ctx = RuleContext { project_root: ROOT, config, specs, graph };
    evaluate_boundary_rules(&ctx, ROOT)
}

fn rules(violations: &[RuleViolation]) -> Vec<&str> {
    violations.iter().map(|v| v.rule.as_str()).collect()
}

#[test]
fn omitted_allow_imports_from_allows_cross_module_imports() {
    let g = graph(&[("src/a/main.ts", "a"), ("src/b/index.ts", "b")], &[imp("src/a/main.ts", "src/b/index.ts", "../b/index", 1)]);
    let specs = vec![
        spec_with_boundaries("a", "src/a/**/*", Boundaries::default()),
        spec_with_boundaries("b", "src/b/**/*", Boundaries::default()),
    ];
    let violations = run_engine(&SpecConfig::default(), &specs, &g);
    assert!(violations.is_empty());
}

#[test]
fn empty_allow_imports_from_denies_cross_module_imports() {
    let g = graph(&[("src/a/main.ts", "a"), ("src/b/index.ts", "b")], &[imp("src/a/main.ts", "src/b/index.ts", "../b/index", 1)]);
    let specs = vec![
        spec_with_boundaries("a", "src/a/**/*", Boundaries { allow_imports_from: Some(vec![]), ..Boundaries::default() }),
        spec_with_boundaries("b", "src/b/**/*", Boundaries::default()),
    ];
    let violations = run_engine(&SpecConfig::default(), &specs, &g);
    assert_eq!(violations.len(), 1);
    assert_eq!(violations[0].rule, "boundary.allow_imports_from");
}

#[test]
fn allow_imports_from_specific_modules_allows_listed_and_blocks_others() {
    let g = graph(
        &[("src/a/main.ts", "a"), ("src/lib/index.ts", "lib"), ("src/routes/health.ts", "routes")],
        &[
            imp("src/a/main.ts", "src/lib/index.ts", "../lib/index", 1),
            imp("src/a/main.ts", "src/routes/health.ts", "../routes/health", 2),
        ],
    );
    let specs = vec![
        spec_with_boundaries(
            "a",
            "src/a/**/*",
            Boundaries { allow_imports_from: Some(vec!["lib".to_string()]), ..Boundaries::default() },
        ),
        spec_with_boundaries("lib", "src/lib/**/*", Boundaries::default()),
        spec_with_boundaries("routes", "src/routes/**/*", Boundaries::default()),
    ];
    let violations = run_engine(&SpecConfig::default(), &specs, &g);
    assert_eq!(violations.len(), 1);
    assert_eq!(violations[0].rule, "boundary.allow_imports_from");
    assert_eq!(violations[0].to_module.as_deref(), Some("routes"));
}

#[test]
fn self_imports_are_always_allowed_even_with_empty_allowlist() {
    let g = graph(&[("src/a/main.ts", "a"), ("src/a/local.ts", "a")], &[imp("src/a/main.ts", "src/a/local.ts", "./local", 1)]);
    let specs =
        vec![spec_with_boundaries("a", "src/a/**/*", Boundaries { allow_imports_from: Some(vec![]), ..Boundaries::default() })];
    let violations = run_engine(&SpecConfig::default(), &specs, &g);
    assert!(violations.is_empty());
}

#[test]
fn enforces_importer_allow_and_never_with_type_only_carve_out() {
    let mut type_import = imp("src/a/main.ts", "src/types/index.ts", "../types/index", 2);
    type_import.kind = EdgeKind::TypeOnlyImport;
    let g = graph(
        &[
            ("src/a/main.ts", "a"),
            ("src/b/index.ts", "b"),
            ("src/types/index.ts", "types"),
            ("src/never/index.ts", "never"),
        ],
        &[
            imp("src/a/main.ts", "src/b/index.ts", "../b/index", 1),
            type_import,
            imp("src/a/main.ts", "src/never/index.ts", "../never/index", 3),
        ],
    );
    let specs = vec![
        spec_with_boundaries(
            "a",
            "src/a/**/*",
            Boundaries {
                allow_imports_from: Some(vec!["b".to_string()]),
                allow_type_imports_from: vec!["types".to_string()],
                never_imports: vec!["never".to_string()],
                ..Boundaries::default()
            },
        ),
        spec_with_boundaries("b", "src/b/**/*", Boundaries::default()),
        spec_with_boundaries("types", "src/types/**/*", Boundaries::default()),
        spec_with_boundaries("never", "src/never/**/*", Boundaries::default()),
    ];
    let violations = run_engine(&SpecConfig::default(), &specs, &g);
    assert_eq!(violations.len(), 1);
    assert_eq!(violations[0].rule, "boundary.never_imports");
}

#[test]
fn enforces_public_api_on_provider_files() {
    let g = graph(
        &[
            ("src/app/main.ts", "app"),
            ("src/provider/public/index.ts", "provider"),
            ("src/provider/internal/secret.ts", "provider"),
        ],
        &[
            imp("src/app/main.ts", "src/provider/public/index.ts", "../provider/public/index", 1),
            imp("src/app/main.ts", "src/provider/internal/secret.ts", "../provider/internal/secret", 2),
        ],
    );
    let specs = vec![
        spec_with_boundaries("app", "src/app/**/*", Boundaries::default()),
        spec_with_boundaries(
            "provider",
            "src/provider/**/*",
            Boundaries { public_api: vec!["src/provider/public/**/*".to_string()], ..Boundaries::default() },
        ),
    ];
    let violations = run_engine(&SpecConfig::default(), &specs, &g);
    assert_eq!(violations.len(), 1);
    assert_eq!(violations[0].rule, "boundary.public_api");
    assert!(violations[0].message.contains("non-public"));
    assert_eq!(
        violations[0].message,
        "module 'app' imported non-public file 'src/provider/internal/secret.ts' from 'provider'"
    );
}

#[test]
fn enforces_provider_visibility_allow_and_deny_precedence() {
    let g = graph(
        &[("src/a/main.ts", "a"), ("src/provider/index.ts", "provider")],
        &[imp("src/a/main.ts", "src/provider/index.ts", "../provider/index", 1)],
    );
    let specs = vec![
        spec_with_boundaries("a", "src/a/**/*", Boundaries::default()),
        spec_with_boundaries(
            "provider",
            "src/provider/**/*",
            Boundaries {
                visibility: Some(Visibility::Internal),
                allow_imported_by: vec!["a".to_string()],
                deny_imported_by: vec!["a".to_string()],
                friend_modules: vec!["a".to_string()],
                ..Boundaries::default()
            },
        ),
    ];
    let violations = run_engine(&SpecConfig::default(), &specs, &g);
    assert_eq!(violations.len(), 1);
    assert_eq!(violations[0].rule, "boundary.deny_imported_by");
}

#[test]
fn visibility_internal_respects_friend_modules_and_private_blocks_all() {
    let g = graph(
        &[
            ("src/friend/main.ts", "friend"),
            ("src/stranger/main.ts", "stranger"),
            ("src/internal/index.ts", "internal"),
            ("src/private/index.ts", "private"),
        ],
        &[
            imp("src/friend/main.ts", "src/internal/index.ts", "../internal/index", 1),
            imp("src/friend/main.ts", "src/private/index.ts", "../private/index", 2),
            imp("src/stranger/main.ts", "src/internal/index.ts", "../internal/index", 1),
        ],
    );
    let specs = vec![
        spec_with_boundaries("friend", "src/friend/**/*", Boundaries::default()),
        spec_with_boundaries("stranger", "src/stranger/**/*", Boundaries::default()),
        spec_with_boundaries(
            "internal",
            "src/internal/**/*",
            Boundaries {
                visibility: Some(Visibility::Internal),
                friend_modules: vec!["friend".to_string()],
                ..Boundaries::default()
            },
        ),
        spec_with_boundaries(
            "private",
            "src/private/**/*",
            Boundaries {
                visibility: Some(Visibility::Private),
                friend_modules: vec!["friend".to_string()],
                ..Boundaries::default()
            },
        ),
    ];
    let violations = run_engine(&SpecConfig::default(), &specs, &g);
    let rules = rules(&violations);
    assert!(rules.contains(&"boundary.visibility.internal"));
    assert!(rules.contains(&"boundary.visibility.private"));
    assert_eq!(violations.len(), 2);
}

#[test]
fn canonical_imports_bans_cross_module_relative_when_enabled() {
    let g = graph(
        &[("src/a/main.ts", "a"), ("src/b/index.ts", "b"), ("src/c/index.ts", "c")],
        &[
            imp("src/a/main.ts", "src/b/index.ts", "../b/index", 1),
            imp("src/a/main.ts", "src/c/index.ts", "@acme/c/index", 2),
        ],
    );
    let specs = vec![
        spec_with_boundaries("a", "src/a/**/*", Boundaries::default()),
        spec_with_boundaries("b", "src/b/**/*", Boundaries { enforce_canonical_imports: true, ..Boundaries::default() }),
        spec_with_boundaries("c", "src/c/**/*", Boundaries::default()),
    ];
    let violations = run_engine(&SpecConfig::default(), &specs, &g);
    assert_eq!(violations.len(), 1);
    assert_eq!(violations[0].rule, BOUNDARY_CANONICAL_IMPORT_RULE_ID);
}

#[test]
fn test_files_are_exempt_unless_enforce_in_tests_is_true() {
    let g = graph(
        &[("src/a/example.test.ts", "a"), ("src/b/index.ts", "b")],
        &[imp("src/a/example.test.ts", "src/b/index.ts", "../b/index", 1)],
    );
    let specs = vec![
        spec_with_boundaries(
            "a",
            "src/a/**/*",
            Boundaries {
                allow_imports_from: Some(vec![]),
                never_imports: vec!["b".to_string()],
                enforce_in_tests: false,
                ..Boundaries::default()
            },
        ),
        spec_with_boundaries("b", "src/b/**/*", Boundaries { enforce_in_tests: false, ..Boundaries::default() }),
    ];
    let no_enforce = run_engine(&SpecConfig::default(), &specs, &g);
    assert!(no_enforce.is_empty());

    let mut specs_enforced = specs;
    specs_enforced[0].boundaries.as_mut().expect("boundaries").enforce_in_tests = true;
    let enforced = run_engine(&SpecConfig::default(), &specs_enforced, &g);
    assert_eq!(enforced.len(), 1);
    assert_eq!(enforced[0].rule, "boundary.never_imports");
}

#[test]
fn ignores_imports_marked_with_specgate_ignore() {
    let mut ignored = imp("src/a/main.ts", "src/b/index.ts", "../b/index", 2);
    ignored.ignored = true;
    let g = graph(&[("src/a/main.ts", "a"), ("src/b/index.ts", "b")], &[ignored]);
    let specs = vec![
        spec_with_boundaries("a", "src/a/**/*", Boundaries { never_imports: vec!["b".to_string()], ..Boundaries::default() }),
        spec_with_boundaries("b", "src/b/**/*", Boundaries::default()),
    ];
    let violations = run_engine(&SpecConfig::default(), &specs, &g);
    assert!(violations.is_empty());
}

#[test]
fn ignore_is_scoped_to_single_import_occurrence() {
    let mut ignored = imp("src/a/main.ts", "src/b/index.ts", "../b/index", 2);
    ignored.ignored = true;
    let g = graph(
        &[("src/a/main.ts", "a"), ("src/b/index.ts", "b")],
        &[ignored, imp("src/a/main.ts", "src/b/index.ts", "../b/index", 3)],
    );
    let specs = vec![
        spec_with_boundaries("a", "src/a/**/*", Boundaries { never_imports: vec!["b".to_string()], ..Boundaries::default() }),
        spec_with_boundaries("b", "src/b/**/*", Boundaries::default()),
    ];
    let violations = run_engine(&SpecConfig::default(), &specs, &g);
    assert_eq!(violations.len(), 1);
    assert_eq!(violations[0].rule, "boundary.never_imports");
    assert_eq!(violations[0].line, Some(3));
}

#[test]
fn reports_importer_and_provider_violations_for_same_edge() {
    let g = graph(
        &[("src/a/main.ts", "a"), ("src/provider/index.ts", "provider")],
        &[imp("src/a/main.ts", "src/provider/index.ts", "../provider/index", 1)],
    );
    let specs = vec![
        spec_with_boundaries("a", "src/a/**/*", Boundaries { allow_imports_from: Some(vec!["a".to_string()]), ..Boundaries::default() }),
        spec_with_boundaries(
            "provider",
            "src/provider/**/*",
            Boundaries { deny_imported_by: vec!["a".to_string()], ..Boundaries::default() },
        ),
    ];
    let violations = run_engine(&SpecConfig::default(), &specs, &g);
    let rules = rules(&violations);
    assert_eq!(violations.len(), 2);
    assert!(rules.contains(&"boundary.allow_imports_from"));
    assert!(rules.contains(&"boundary.deny_imported_by"));
}

#[test]
fn invalid_public_api_glob_is_reported_as_config_violation() {
    let g = graph(
        &[("src/app/main.ts", "app"), ("src/provider/index.ts", "provider")],
        &[imp("src/app/main.ts", "src/provider/index.ts", "../provider/index", 1)],
    );
    let specs = vec![
        spec_with_boundaries("app", "src/app/**/*", Boundaries::default()),
        spec_with_boundaries("provider", "src/provider/**/*", Boundaries { public_api: vec!["[".to_string()], ..Boundaries::default() }),
    ];
    let violations = run_engine(&SpecConfig::default(), &specs, &g);
    assert_eq!(violations.len(), 1);
    assert_eq!(violations[0].rule, "boundary.config.invalid_public_api_glob");
    assert!(violations[0].message.contains("boundaries.public_api"));
    assert_eq!(violations[0].from_file, ROOT);
    assert_eq!(violations[0].from_module.as_deref(), Some("provider"));
    assert!(violations[0].message.starts_with("module 'provider' has invalid boundaries.public_api glob pattern: '[' ("));
}

#[test]
fn uses_edge_position_metadata_for_non_import_edges() {
    let g = DependencyGraph {
        edges: vec![GraphEdge {
            from: file("src/a/main.ts"),
            to: file("src/b/index.ts"),
            specifier: "../b/index".to_string(),
            kind: EdgeKind::RuntimeImport,
            span_start: None,
            span_end: None,
            line: Some(1),
            column: Some(1),
            ignored_by_comment: false,
        }],
        file_modules: vec![(file("src/a/main.ts"), "a".to_string()), (file("src/b/index.ts"), "b".to_string())],
        file_imports: Vec::new(),
        file_analyses: Vec::new(),
    };
    let specs = vec![
        spec_with_boundaries("a", "src/a/**/*", Boundaries { allow_imports_from: Some(vec!["a".to_string()]), ..Boundaries::default() }),
        spec_with_boundaries("b", "src/b/**/*", Boundaries::default()),
    ];
    let violations = run_engine(&SpecConfig::default(), &specs, &g);
    assert_eq!(violations.len(), 1);
    assert_eq!(violations[0].rule, "boundary.allow_imports_from");
    assert_ne!((violations[0].line.unwrap_or(0), violations[0].column.unwrap_or(0)), (0, 0));
}

#[test]
fn violations_are_deterministically_sorted() {
    let g = graph(
        &[("src/z/main.ts", "z"), ("src/y/main.ts", "y"), ("src/a/index.ts", "a"), ("src/b/index.ts", "b")],
        &[
            imp("src/z/main.ts", "src/a/index.ts", "../a/index", 1),
            imp("src/z/main.ts", "src/b/index.ts", "../b/index", 2),
            imp("src/y/main.ts", "src/a/index.ts", "../a/index", 1),
        ],
    );
    let specs = vec![
        spec_with_boundaries("z", "src/z/**/*", Boundaries { allow_imports_from: Some(vec!["z".to_string()]), ..Boundaries::default() }),
        spec_with_boundaries("y", "src/y/**/*", Boundaries { allow_imports_from: Some(vec!["y".to_string()]), ..Boundaries::default() }),
        spec_with_boundaries("a", "src/a/**/*", Boundaries::default()),
        spec_with_boundaries("b", "src/b/**/*", Boundaries::default()),
    ];
    let violations = run_engine(&SpecConfig::default(), &specs, &g);
    let keys = violations
        .iter()
        .map(|v| (v.from_file.clone(), v.line.unwrap_or(0), v.column.unwrap_or(0), v.rule.clone()))
        .collect::<Vec<_>>();
    let mut sorted = keys.clone();
    sorted.sort();
    assert_eq!(keys, sorted);
    assert_eq!(violations.len(), 3);
    assert_eq!(violations[0].from_file, file("src/y/main.ts"));
}

#[test]
fn provider_messages_name_both_modules() {
    let g = graph(
        &[("src/a/main.ts", "a"), ("src/p/index.ts", "p")],
        &[imp("src/a/main.ts", "src/p/index.ts", "../p/index", 4)],
    );
    let specs = vec![
        spec_with_boundaries("a", "src/a/**/*", Boundaries::default()),
        spec_with_boundaries(
            "p",
            "src/p/**/*",
            Boundaries { allow_imported_by: vec!["x".to_string(), "y".to_string()], ..Boundaries::default() },
        ),
    ];
    let violations = run_engine(&SpecConfig::default(), &specs, &g);
    assert_eq!(violations.len(), 1);
    let v = &violations[0];
    assert_eq!(v.rule, "boundary.allow_imported_by");
    assert_eq!(v.message, "module 'p' only allows imports from [\"x\", \"y\"]");
    assert_eq!(v.from_module.as_deref(), Some("a"));
    assert_eq!(v.to_module.as_deref(), Some("p"));
    assert_eq!(v.to_file.as_deref(), Some(file("src/p/index.ts").as_str()));
    assert_eq!((v.line, v.column), (Some(4), Some(1)));
    assert_eq!(v.severity, None);
}

#[test]
fn invalid_test_glob_is_reported_at_project_root() {
    let g = graph(&[], &[]);
    let mut config = SpecConfig::default();
    config.test_patterns = vec!["[".to_string()];
    let violations = run_engine(&config, &[], &g);
    assert_eq!(violations.len(), 1);
    assert_eq!(violations[0].rule, "boundary.config.invalid_test_glob");
    assert_eq!(violations[0].from_file, ROOT);
    assert!(violations[0].message.starts_with("invalid config.test_patterns glob pattern: '[' ("));
}

#[test]
fn glob_compilation_outcomes() {
    assert!(matches!(compile_optional_globset_strict(&vec![]), Ok(None)));
    let set = compile_optional_globset_strict(&vec!["src/**/*.ts".to_string()]).unwrap().unwrap();
    assert!(set.is_match("src/a/b.ts"));
    assert!(!set.is_match("lib/a/b.js"));
    match compile_optional_globset_strict(&vec!["ok/*".to_string(), "bad[".to_string(), "[".to_string()]) {
        Err(error @ GlobCompileError::InvalidPattern { .. }) => {
            if let GlobCompileError::InvalidPattern { pattern, .. } = &error {
                assert_eq!(pattern, "bad[");
            }
            assert!(render_glob_error(&error).starts_with("'bad[' ("));
        }
        other => panic!("unexpected {other:?}"),
    }
}
