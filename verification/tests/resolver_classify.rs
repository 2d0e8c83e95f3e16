use specgate::resolver::classify::{
    classify_resolution, extract_package_name, is_explicit_node_builtin, is_node_builtin,
};
use specgate::resolver::ResolvedImport;

#[test]
fn detects_node_builtin_with_prefix() {
    assert!(is_node_builtin("node:fs/promises"));
    assert!(is_node_builtin("path"));
    assert!(is_node_builtin("node:test/reporters"));
    assert!(!is_node_builtin("@app/orders"));
}

#[test]
fn detects_explicit_node_builtin() {
    assert!(is_explicit_node_builtin("node:fs/promises"));
    assert!(!is_explicit_node_builtin("fs"));
    assert!(!is_explicit_node_builtin("node:not-a-builtin"));
}

#[test]
fn extracts_package_names() {
    assert_eq!(extract_package_name("@scope/pkg/path"), "@scope/pkg");
    assert_eq!(extract_package_name("lodash/fp"), "lodash");
    assert_eq!(extract_package_name("node:fs/promises"), "fs");
}

#[test]
fn classifies_first_party_when_inside_project() {
    let root = "/repo";
    let resolved = "/repo/src/index.ts";
    let kind = classify_resolution(root, resolved, "./index");
    assert!(matches!(kind, ResolvedImport::FirstParty { .. }));
}

#[test]
fn bare_builtin_name_does_not_override_concrete_first_party_resolution() {
    let root = "/repo";
    let resolved = "/repo/src/path.ts";
    let kind = classify_resolution(root, resolved, "path");
    assert!(matches!(kind, ResolvedImport::FirstParty { .. }));
}

#[test]
fn classifies_third_party_when_path_has_node_modules_component() {
    let root = "/repo";
    let resolved = "/repo/node_modules/lodash/index.js";
    let kind = classify_resolution(root, resolved, "lodash");
    assert!(matches!(kind, ResolvedImport::ThirdParty { .. }));
}

#[test]
fn does_not_treat_partial_node_modules_name_as_component_match() {
    let root = "/repo";
    let resolved = "/repo/src/node_modules-utils/index.ts";
    let kind = classify_resolution(root, resolved, "./node_modules-utils/index");
    assert!(matches!(kind, ResolvedImport::FirstParty { .. }));
}

#[test]
fn explicit_builtin_is_third_party_with_package_name() {
    let kind = classify_resolution("/repo", "/repo/src/fs.ts", "node:fs/promises");
    assert_eq!(
        kind,
        ResolvedImport::ThirdParty {
            package_name: "fs".to_string()
        }
    );
}

#[test]
fn path_outside_root_is_unresolvable() {
    let kind = classify_resolution("/repo", "/elsewhere/a.ts", "../elsewhere/a");
    assert_eq!(
        kind,
        ResolvedImport::Unresolvable {
            specifier: "../elsewhere/a".to_string(),
            reason: "resolved path is outside project root".to_string(),
        }
    );
}

#[test]
fn sibling_directory_with_common_prefix_is_not_inside_root() {
    let kind = classify_resolution("/repo", "/repository/a.ts", "./a");
    assert!(matches!(kind, ResolvedImport::Unresolvable { .. }));
}

#[test]
fn scoped_package_without_subpath_is_kept_whole() {
    assert_eq!(extract_package_name("@scope/pkg"), "@scope/pkg");
    assert_eq!(extract_package_name("@scope"), "@scope");
    assert_eq!(extract_package_name("react"), "react");
}
