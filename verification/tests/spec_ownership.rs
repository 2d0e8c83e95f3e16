use specgate::spec::ownership::validate_ownership;
use specgate::spec::types::{Boundaries, SpecFile};

fn make_spec(module: &str, path_glob: Option<&str>) -> SpecFile {
    make_spec_with_path(module, path_glob, None)
}

fn make_spec_with_path(module: &str, path_glob: Option<&str>, spec_path: Option<&str>) -> SpecFile {
    SpecFile {
        version: "2.2".to_string(),
        module: module.to_string(),
        package: None,
        import_id: None,
        import_ids: Vec::new(),
        description: None,
        boundaries: path_glob.map(|p| Boundaries { path: Some(p.to_string()), ..Boundaries::default() }),
        constraints: Vec::new(),
        spec_path: spec_path.map(ToString::to_string),
    }
}

const ROOT: &str = "/project";

fn files(paths: &[&str]) -> Vec<String> {
    paths.iter().map(|p| format!("{ROOT}/{p}")).collect()
}

#[test]
fn test_no_issues_clean_ownership() {
    let specs = vec![make_spec("api/core", Some("src/api/**")), make_spec("ui/shared", Some("src/ui/**"))];
    let source = files(&["src/api/index.ts", "src/ui/button.tsx"]);
    let report = validate_ownership(ROOT, &specs, &source);
    assert_eq!(report.total_source_files, 2);
    assert_eq!(report.claimed_files, 2);
    assert!(report.unclaimed_files.is_empty());
    assert!(report.overlapping_files.is_empty());
    assert!(report.duplicate_module_ids.is_empty());
    assert!(report.orphaned_specs.is_empty());
}

#[test]
fn test_unclaimed_file_detected() {
    let specs = vec![make_spec("api/core", Some("src/api/**"))];
    let source = files(&["src/api/index.ts", "src/utils/orphan.ts"]);
    let report = validate_ownership(ROOT, &specs, &source);
    assert_eq!(report.unclaimed_files, vec!["src/utils/orphan.ts"]);
    assert_eq!(report.claimed_files, 1);
    assert_eq!(report.total_source_files, 2);
}

#[test]
fn test_overlapping_ownership_detected() {
    let specs = vec![make_spec("api/core", Some("src/shared/**")), make_spec("ui/shared", Some("src/shared/**"))];
    let source = files(&["src/shared/utils.ts"]);
    let report = validate_ownership(ROOT, &specs, &source);
    assert_eq!(report.overlapping_files.len(), 1);
    let overlap = &report.overlapping_files[0];
    assert_eq!(overlap.file, "src/shared/utils.ts");
    assert!(overlap.claimed_by.contains(&"api/core".to_string()));
    assert!(overlap.claimed_by.contains(&"ui/shared".to_string()));
    assert!(report.unclaimed_files.is_empty());
}

#[test]
fn test_duplicate_module_id_detected() {
    let specs = vec![
        make_spec_with_path("api/core", None, Some("/project/specs/b/api-core.spec.yml")),
        make_spec_with_path("api/core", None, Some("/project/specs/a/api-core.spec.yml")),
    ];
    let report = validate_ownership(ROOT, &specs, &files(&[]));
    assert_eq!(report.duplicate_module_ids.len(), 1);
    assert_eq!(report.duplicate_module_ids[0].module_id, "api/core");
    assert_eq!(report.duplicate_module_ids[0].spec_paths.len(), 2);
    assert_eq!(
        report.duplicate_module_ids[0].spec_paths,
        vec!["/project/specs/a/api-core.spec.yml", "/project/specs/b/api-core.spec.yml"]
    );
}

#[test]
fn test_orphaned_spec_detected() {
    let specs = vec![make_spec("old-module", Some("src/old/**"))];
    let source = files(&["src/new/index.ts"]);
    let report = validate_ownership(ROOT, &specs, &source);
    assert_eq!(report.orphaned_specs.len(), 1);
    assert_eq!(report.orphaned_specs[0].module_id, "old-module");
    assert_eq!(report.orphaned_specs[0].path_glob, "src/old/**");
    assert_eq!(report.orphaned_specs[0].spec_path, "old-module");
}

#[test]
fn test_spec_without_boundaries_skipped() {
    let specs = vec![make_spec("no-boundaries", None)];
    let source = files(&["src/index.ts"]);
    let report = validate_ownership(ROOT, &specs, &source);
    assert!(report.orphaned_specs.is_empty());
    assert_eq!(report.unclaimed_files, vec!["src/index.ts"]);
}

#[test]
fn ownership_lists_are_sorted_and_counted() {
    let specs = vec![
        make_spec_with_path("b", Some("src/**"), Some("/project/specs/b.spec.yml")),
        make_spec("a", Some("src/shared/**")),
        make_spec("c", Some("[")),
        make_spec_with_path("a", None, None),
    ];
    let source = files(&["zzz/x.ts", "src/shared/y.ts", "aaa/x.ts", "src/z.ts"]);
    let report = validate_ownership(ROOT, &specs, &source);
    assert_eq!(report.total_source_files, 4);
    assert_eq!(report.claimed_files, 2);
    assert_eq!(report.unclaimed_files, vec!["aaa/x.ts", "zzz/x.ts"]);
    assert_eq!(report.overlapping_files.len(), 1);
    assert_eq!(report.overlapping_files[0].claimed_by, vec!["a", "b"]);
    assert_eq!(report.duplicate_module_ids.len(), 1);
    assert_eq!(report.duplicate_module_ids[0].spec_paths, vec!["<a>", "<a>"]);
    assert!(report.orphaned_specs.is_empty());
}
