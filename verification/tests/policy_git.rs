use specgate::policy::git::{
    parse_name_status_z, FailClosedSpecOperation, RenameCopySemanticPairing,
};

#[test]
fn parse_name_status_z_buckets_amt_and_fail_closed_operations() {
    let raw = b"A\0modules/new policy.spec.yml\0M\0modules/modified.spec.yml\0T\0modules/type-changed.spec.yml\0D\0modules/gone.spec.yml\0R089\0modules/old policy.spec.yml\0modules/new policy name.spec.yml\0C100\0modules/original.spec.yml\0modules/copied.spec.yml\0";

    let parsed = parse_name_status_z(raw).expect("parse diff output");

    let mut expected = vec![
        "modules/new policy.spec.yml".to_string(),
        "modules/modified.spec.yml".to_string(),
        "modules/type-changed.spec.yml".to_string(),
    ];
    expected.sort();
    assert_eq!(parsed.changed_spec_paths, expected);

    assert_eq!(
        parsed.fail_closed_operations,
        vec![
            FailClosedSpecOperation::Deletion {
                path: "modules/gone.spec.yml".to_string(),
            },
            FailClosedSpecOperation::RenameOrCopy {
                status: "R089".to_string(),
                from_path: "modules/old policy.spec.yml".to_string(),
                to_path: "modules/new policy name.spec.yml".to_string(),
                semantic_pairing: RenameCopySemanticPairing::Unassessed,
            },
            FailClosedSpecOperation::RenameOrCopy {
                status: "C100".to_string(),
                from_path: "modules/original.spec.yml".to_string(),
                to_path: "modules/copied.spec.yml".to_string(),
                semantic_pairing: RenameCopySemanticPairing::Unassessed,
            },
        ]
    );
}

#[test]
fn parse_name_status_z_preserves_unicode_and_special_paths() {
    let raw = "A\0模块/支付.spec.yml\0M\0modules/@scope/payments v2.spec.yml\0"
        .as_bytes()
        .to_vec();

    let parsed = parse_name_status_z(&raw).expect("parse diff output");

    assert!(parsed
        .changed_spec_paths
        .contains(&"模块/支付.spec.yml".to_string()));
    assert!(parsed
        .changed_spec_paths
        .contains(&"modules/@scope/payments v2.spec.yml".to_string()));
}

#[test]
fn parse_name_status_z_empty_input_is_empty() {
    let parsed = parse_name_status_z(b"").expect("parse");
    assert!(parsed.changed_spec_paths.is_empty());
    assert!(parsed.fail_closed_operations.is_empty());
}

#[test]
fn parse_name_status_z_ignores_non_spec_paths_and_dedupes() {
    let raw = b"M\0src/a.ts\0M\0x.spec.yml\0A\0x.spec.yml\0R100\0a.ts\0b.ts\0";
    let parsed = parse_name_status_z(raw).expect("parse");
    assert_eq!(parsed.changed_spec_paths, vec!["x.spec.yml".to_string()]);
    assert!(parsed.fail_closed_operations.is_empty());
}

#[test]
fn parse_name_status_z_rejects_unsupported_status() {
    let err = parse_name_status_z(b"X\0a.spec.yml\0").expect_err("unsupported");
    assert_eq!(err.code(), "git.diff_parse_error");
    assert_eq!(err.message(), "unsupported git status 'X' in diff output");
}

#[test]
fn parse_name_status_z_rejects_truncated_output() {
    let err = parse_name_status_z(b"R100\0only-one.spec.yml\0").expect_err("truncated");
    assert_eq!(err.code(), "git.diff_parse_error");
    assert_eq!(err.message(), "truncated git diff output after status 'R100'");
}

#[test]
fn parse_name_status_z_rejects_non_utf8_path() {
    let err = parse_name_status_z(b"A\0\xff\xfe.spec.yml\0").expect_err("non utf8");
    assert_eq!(err.message(), "git diff emitted non-UTF-8 path token");
}
