use specgate::resolver::module_map::{build_module_map, ProjectFile, ResolverError};
use specgate::spec::types::{Boundaries, SpecFile};

fn base_spec(module: &str, path: Option<&str>) -> SpecFile {
    SpecFile {
        version: "2.2".to_string(),
        module: module.to_string(),
        package: None,
        import_id: None,
        import_ids: Vec::new(),
        description: None,
        boundaries: Some(Boundaries { path: path.map(|p| p.to_string()), ..Boundaries::default() }),
        constraints: Vec::new(),
        spec_path: None,
    }
}

fn file(relative: &str) -> ProjectFile {
    ProjectFile {
        path: format!("/repo/{relative}"),
        relative: relative.to_string(),
        canonical: format!("/repo/{relative}"),
    }
}

#[test]
fn module_map_overlap_is_reported_with_deterministic_precedence() {
    let specs = vec![base_spec("beta", Some("src/**/*.ts")), base_spec("alpha", Some("src/**/*"))];
    let map = build_module_map(&specs, &[file("src/a.ts")]).expect("module map");
    assert_eq!(map.module_for_file("/repo/src/a.ts"), Some("alpha"));
    let overlaps = map.module_map_overlaps();
    assert_eq!(overlaps.len(), 1);
    assert_eq!(overlaps[0].selected_module, "alpha");
    assert_eq!(overlaps[0].matched_modules, vec!["alpha", "beta"]);
}

#[test]
fn nested_module_paths_do_not_overlap_when_parent_uses_single_star() {
    let specs = vec![
        base_spec("server", Some("src/server/*.ts")),
        base_spec("server/bridge", Some("src/server/bridge/**")),
    ];
    let map = build_module_map(&specs, &[file("src/server/index.ts"), file("src/server/bridge/index.ts")])
        .expect("module map");
    assert_eq!(map.module_for_file("/repo/src/server/index.ts"), Some("server"));
    assert_eq!(map.module_for_file("/repo/src/server/bridge/index.ts"), Some("server/bridge"));
    assert!(map.module_map_overlaps().is_empty());
}

#[test]
fn module_without_path_owns_its_directory() {
    let mut spec = base_spec("/core/", None);
    spec.boundaries = None;
    let map = build_module_map(&[spec], &[file("core/a.ts"), file("other/b.ts")]).expect("module map");
    assert_eq!(map.module_for_file("/repo/core/a.ts"), Some("/core/"));
    assert_eq!(map.module_for_file("/repo/other/b.ts"), None);
}

#[test]
fn one_module_matching_twice_is_no_overlap() {
    let specs = vec![base_spec("app", Some("src/**/*")), base_spec("app", Some("src/**/*.ts"))];
    let map = build_module_map(&specs, &[file("src/a.ts")]).expect("module map");
    assert_eq!(map.module_for_file("/repo/src/a.ts"), Some("app"));
    assert!(map.module_map_overlaps().is_empty());
}

#[test]
fn invalid_module_glob_is_reported() {
    let specs = vec![base_spec("ok", Some("src/**")), base_spec("bad", Some("src/[a"))];
    match build_module_map(&specs, &[]) {
        Err(ResolverError::InvalidModuleGlob { module, pattern, .. }) => {
            assert_eq!(module, "bad");
            assert_eq!(pattern, "src/[a");
        }
        other => panic!("unexpected result: {:?}", other.map(|m| m.entries)),
    }
}
