use specgate::spec::config::SpecConfig;
use specgate::spec::discovery::{select_spec_files, sort_specs, SpecSelectError, WalkedFile};
use specgate::spec::types::SpecFile;

fn walked(relative: &str) -> WalkedFile {
    WalkedFile { relative: relative.to_string(), canonical: format!("/repo/{relative}") }
}

fn spec(module: &str, path: Option<&str>) -> SpecFile {
    SpecFile {
        version: "2.2".to_string(),
        module: module.to_string(),
        package: None,
        import_id: None,
        import_ids: Vec::new(),
        description: None,
        boundaries: None,
        constraints: Vec::new(),
        spec_path: path.map(|p| p.to_string()),
    }
}

#[test]
fn spec_files_are_chosen_by_name_and_exclusions() {
    let files = vec![
        walked("modules/app.spec.yml"),
        walked("modules/readme.md"),
        walked("node_modules/pkg/x.spec.yml"),
        walked("dist/out.spec.yml"),
        walked("modules/app.spec.yml"),
        walked("generated/api.spec.yml"),
    ];
    let chosen = select_spec_files(&SpecConfig::default(), &files).expect("selection");
    assert_eq!(chosen, vec!["/repo/modules/app.spec.yml".to_string()]);
}

#[test]
fn re_included_default_directories_are_searched() {
    let config = SpecConfig {
        include_dirs: vec!["generated".to_string()],
        exclude: Vec::new(),
        ..SpecConfig::default()
    };
    let chosen = select_spec_files(&config, &[walked("generated/api.spec.yml")]).expect("selection");
    assert_eq!(chosen, vec!["/repo/generated/api.spec.yml".to_string()]);
}

#[test]
fn exclude_globs_apply_to_files_and_their_directories() {
    let config = SpecConfig { exclude: vec!["legacy".to_string(), "**/*.old.spec.yml".to_string()], ..SpecConfig::default() };
    let files = vec![walked("legacy/a.spec.yml"), walked("mods/b.old.spec.yml"), walked("mods/c.spec.yml")];
    let chosen = select_spec_files(&config, &files).expect("selection");
    assert_eq!(chosen, vec!["/repo/mods/c.spec.yml".to_string()]);
}

#[test]
fn invalid_exclude_glob_fails_selection() {
    let config = SpecConfig { exclude: vec!["[oops".to_string()], ..SpecConfig::default() };
    match select_spec_files(&config, &[]) {
        Err(SpecSelectError::InvalidGlob { pattern, .. }) => assert_eq!(pattern, "<globset>"),
        other => panic!("unexpected: {:?}", other),
    }
}

#[test]
fn loaded_specs_sort_by_module_then_path() {
    let mut specs = vec![
        spec("orders", Some("b/orders.spec.yml")),
        spec("api", Some("x/api.spec.yml")),
        spec("orders", Some("a/orders.spec.yml")),
        spec("orders", None),
    ];
    sort_specs(&mut specs);
    let order: Vec<(String, Option<String>)> = specs.iter().map(|s| (s.module.clone(), s.spec_path.clone())).collect();
    assert_eq!(
        order,
        vec![
            ("api".to_string(), Some("x/api.spec.yml".to_string())),
            ("orders".to_string(), None),
            ("orders".to_string(), Some("a/orders.spec.yml".to_string())),
            ("orders".to_string(), Some("b/orders.spec.yml".to_string())),
        ]
    );
}
