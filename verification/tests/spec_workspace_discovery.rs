use specgate::spec::config::SpecConfig;
use specgate::spec::types::JsonValue;
use specgate::spec::workspace_discovery::{
    declared_workspace_patterns, discover_workspace_packages_best_effort,
    discover_workspace_packages_strict, discover_workspace_packages_with_config_best_effort,
    normalize_workspace_pattern, workspace_walk_plans, SourceFile, WorkspaceDir, WorkspaceError,
    WorkspaceSources, WorkspaceWalk,
};

fn dir(relative: &str, has_package_json: bool, has_src_dir: bool) -> WorkspaceDir {
    WorkspaceDir {
        relative_dir: relative.to_string(),
        walked: true,
        has_package_json,
        has_src_dir,
    }
}

fn pnpm(patterns: &[&str], dirs: Vec<WorkspaceDir>) -> WorkspaceSources {
    WorkspaceSources {
        pnpm_workspace: SourceFile::Parsed(patterns.iter().map(|p| p.to_string()).collect()),
        package_json: SourceFile::Absent,
        dirs,
    }
}

fn object(members: Vec<(&str, JsonValue)>) -> JsonValue {
    JsonValue::Object(members.into_iter().map(|(k, v)| (k.to_string(), v)).collect())
}

fn text(s: &str) -> JsonValue {
    JsonValue::Str(s.to_string())
}

fn package_json(value: JsonValue, dirs: Vec<WorkspaceDir>) -> WorkspaceSources {
    WorkspaceSources {
        pnpm_workspace: SourceFile::Absent,
        package_json: SourceFile::Parsed(value),
        dirs,
    }
}

#[test]
fn discovers_workspace_packages_from_pnpm_workspace() {
    let sources = pnpm(
        &["packages/*", "extensions/*"],
        vec![dir("extensions/shared", true, true), dir("packages/web", true, true)],
    );

    let packages = discover_workspace_packages_best_effort("/repo", &sources);
    assert_eq!(packages.len(), 2);

    assert_eq!(packages[0].module, "shared");
    assert_eq!(packages[0].relative_dir, "extensions/shared");
    assert_eq!(packages[0].module_glob, "extensions/shared/src/**/*");

    assert_eq!(packages[1].module, "web");
    assert_eq!(packages[1].relative_dir, "packages/web");
    assert_eq!(packages[1].module_glob, "packages/web/src/**/*");
}

#[test]
fn discovers_workspace_packages_from_package_json_fallback() {
    let value = object(vec![
        ("name", text("root")),
        ("workspaces", object(vec![("packages", JsonValue::Array(vec![text("packages/*")]))])),
    ]);
    let sources = package_json(value, vec![dir("packages/alpha", true, true)]);

    let packages = discover_workspace_packages_best_effort("/repo", &sources);
    assert_eq!(packages.len(), 1);
    assert_eq!(packages[0].module, "alpha");
    assert_eq!(packages[0].relative_dir, "packages/alpha");
    assert_eq!(packages[0].module_glob, "packages/alpha/src/**/*");
}

#[test]
fn workspace_discovery_skips_vendor_dirs_by_default() {
    let sources = pnpm(&["vendor/*"], vec![dir("vendor/lib", true, true)]);

    let packages = discover_workspace_packages_best_effort("/repo", &sources);
    assert!(packages.is_empty(), "vendor should be excluded by default");
}

#[test]
fn include_dirs_reincludes_default_excluded_vendor_workspace() {
    let sources = pnpm(&["vendor/*"], vec![dir("vendor/lib", true, true)]);

    let config = SpecConfig {
        include_dirs: vec!["vendor".to_string()],
        ..SpecConfig::default()
    };

    let packages = discover_workspace_packages_with_config_best_effort("/repo", &config, &sources);
    assert_eq!(packages.len(), 1);
    assert_eq!(packages[0].relative_dir, "vendor/lib");
}

#[test]
fn include_dirs_noop_for_non_excluded_dirs() {
    let sources = pnpm(&["packages/*"], vec![dir("packages/app", true, true)]);

    let default_packages = discover_workspace_packages_best_effort("/repo", &sources);
    let include_packages = discover_workspace_packages_with_config_best_effort(
        "/repo",
        &SpecConfig {
            include_dirs: vec!["packages".to_string()],
            ..SpecConfig::default()
        },
        &sources,
    );

    assert_eq!(include_packages, default_packages);
    assert_eq!(include_packages.len(), 1);
}

#[test]
fn checked_discovery_rejects_malformed_package_json_workspaces() {
    let value = object(vec![
        ("name", text("root")),
        ("workspaces", JsonValue::Number("17".to_string())),
    ]);
    let sources = package_json(value, Vec::new());

    let error = discover_workspace_packages_strict("/repo", &SpecConfig::default(), &sources)
        .expect_err("workspace discovery should fail");

    assert!(
        error.to_message().contains("workspaces"),
        "error should mention workspaces: {}",
        error.to_message()
    );
}

#[test]
fn best_effort_discovery_drops_workspace_config_errors() {
    let value = object(vec![
        ("name", text("root")),
        ("workspaces", JsonValue::Number("17".to_string())),
    ]);
    let sources = package_json(value, Vec::new());

    let packages = discover_workspace_packages_best_effort("/repo", &sources);

    assert!(packages.is_empty(), "best-effort discovery should be lossy");
}

#[test]
fn checked_discovery_rejects_invalid_workspace_glob() {
    let sources = WorkspaceSources {
        pnpm_workspace: SourceFile::Absent,
        package_json: SourceFile::Absent,
        dirs: Vec::new(),
    };
    let with_pattern = pnpm(&["[abc*"], Vec::new());
    let error = discover_workspace_packages_strict("/repo", &SpecConfig::default(), &with_pattern)
        .expect_err("invalid glob");

    assert!(
        error.to_message().contains("invalid workspace glob"),
        "error should mention invalid workspace glob: {}",
        error.to_message()
    );
    assert!(discover_workspace_packages_strict("/repo", &SpecConfig::default(), &sources)
        .expect("no patterns")
        .is_empty());
}

#[test]
fn checked_discovery_allows_valid_but_empty_workspace_configs() {
    let value = object(vec![("workspaces", JsonValue::Array(vec![text("packages/*")]))]);
    let sources = package_json(value, Vec::new());

    let packages = discover_workspace_packages_strict("/repo", &SpecConfig::default(), &sources)
        .expect("workspace discovery should succeed");

    assert!(packages.is_empty(), "unmatched workspace globs should be allowed");
}

#[test]
fn workspace_patterns_are_normalized() {
    assert_eq!(normalize_workspace_pattern("  \"./packages/*/\" "), "packages/*");
    assert_eq!(normalize_workspace_pattern("apps\\web"), "apps/web");
    assert_eq!(normalize_workspace_pattern("././libs//"), "libs");
    assert_eq!(normalize_workspace_pattern("   "), "");
}

#[test]
fn workspace_patterns_come_from_pnpm_then_package_json() {
    let sources = WorkspaceSources {
        pnpm_workspace: SourceFile::Parsed(vec!["apps/*".to_string(), " ".to_string()]),
        package_json: SourceFile::Parsed(object(vec![(
            "workspaces",
            JsonValue::Array(vec![text("./libs/*/")]),
        )])),
        dirs: Vec::new(),
    };
    let patterns = declared_workspace_patterns("/repo", &sources).expect("patterns");
    assert_eq!(patterns, vec!["apps/*".to_string(), "libs/*".to_string()]);
}

#[test]
fn workspace_config_errors_name_their_file() {
    let yaml = WorkspaceSources {
        pnpm_workspace: SourceFile::Malformed("bad yaml".to_string()),
        package_json: SourceFile::Absent,
        dirs: Vec::new(),
    };
    assert_eq!(
        declared_workspace_patterns("/repo", &yaml),
        Err(WorkspaceError::YamlParse {
            path: "/repo/pnpm-workspace.yaml".to_string(),
            message: "bad yaml".to_string(),
        })
    );

    let not_strings = package_json(
        object(vec![("workspaces", JsonValue::Array(vec![JsonValue::Bool(true)]))]),
        Vec::new(),
    );
    assert_eq!(
        declared_workspace_patterns("/repo", &not_strings),
        Err(WorkspaceError::ConfigInvalid {
            path: "/repo/package.json".to_string(),
            message: "workspaces array entries must be strings".to_string(),
        })
    );

    let no_packages = package_json(
        object(vec![("workspaces", object(vec![("nohoist", JsonValue::Array(Vec::new()))]))]),
        Vec::new(),
    );
    assert_eq!(
        declared_workspace_patterns("/repo", &no_packages),
        Err(WorkspaceError::ConfigInvalid {
            path: "/repo/package.json".to_string(),
            message: "workspaces object must contain a 'packages' array".to_string(),
        })
    );

    let packages_not_array = package_json(
        object(vec![("workspaces", object(vec![("packages", text("packages/*"))]))]),
        Vec::new(),
    );
    assert_eq!(
        declared_workspace_patterns("/repo", &packages_not_array),
        Err(WorkspaceError::ConfigInvalid {
            path: "/repo/package.json".to_string(),
            message: "workspaces.packages must be an array".to_string(),
        })
    );
}

#[test]
fn workspace_walk_plans_follow_sorted_patterns() {
    let sources = pnpm(&["packages/**", "apps/*", "tools/cli", "apps/*", "[x*"], Vec::new());
    let plans = workspace_walk_plans("/repo", &sources).expect("plans");
    assert_eq!(
        plans,
        vec![
            WorkspaceWalk::Invalid,
            WorkspaceWalk::Walk { root: "apps".to_string(), recursive: false },
            WorkspaceWalk::Walk { root: "packages".to_string(), recursive: true },
            WorkspaceWalk::Literal("tools/cli".to_string()),
        ]
    );
}

#[test]
fn workspace_modules_are_disambiguated_by_path() {
    let sources = pnpm(
        &["apps/*", "libs/*", "tools/cli"],
        vec![
            dir("apps/core", true, false),
            dir("libs/core", false, true),
            dir("libs/empty", false, false),
            WorkspaceDir {
                relative_dir: "tools/cli".to_string(),
                walked: false,
                has_package_json: true,
                has_src_dir: false,
            },
            dir("apps/core/nested", true, true),
        ],
    );
    let packages = discover_workspace_packages_strict("/repo", &SpecConfig::default(), &sources)
        .expect("packages");
    let summary: Vec<(String, String, String)> = packages
        .iter()
        .map(|p| (p.module.clone(), p.relative_dir.clone(), p.module_glob.clone()))
        .collect();
    assert_eq!(
        summary,
        vec![
            ("core".to_string(), "apps/core".to_string(), "apps/core/**/*".to_string()),
            ("libs__core".to_string(), "libs/core".to_string(), "libs/core/src/**/*".to_string()),
            ("cli".to_string(), "tools/cli".to_string(), "tools/cli/**/*".to_string()),
        ]
    );
}

#[test]
fn invalid_glob_is_reported_against_the_workspace_file() {
    let sources = pnpm(&["[abc*"], Vec::new());
    let error = discover_workspace_packages_strict("/repo", &SpecConfig::default(), &sources)
        .expect_err("invalid glob");
    match error {
        WorkspaceError::GlobInvalid { path, pattern, .. } => {
            assert_eq!(path, "/repo/pnpm-workspace.yaml");
            assert_eq!(pattern, "[abc*");
        }
        other => panic!("unexpected error: {:?}", other),
    }
}
