use kintsu_parser::packaging::{validate_grant_schema_role, validate_publishing_package_data};
use kintsu_parser::registry_core::PackagingError;

fn files(v: &[&str]) -> Vec<String> {
    v.iter().map(|s| s.to_string()).collect()
}

fn manifest() -> String {
    "schema.toml".to_string()
}

#[test]
fn an_empty_upload_is_refused() {
    match validate_publishing_package_data(&vec![], &manifest()) {
        Err(v) => {
            assert_eq!(v.len(), 1);
            assert!(matches!(v[0], PackagingError::EmptyPackageData));
        },
        Ok(()) => panic!("expected a refusal"),
    }
}

#[test]
fn schema_files_and_docs_are_accepted() {
    let f = files(&["schema.toml", "schema/lib.ks", "schema/orders.ks", "README.md", "LICENSE", "notes/.hidden"]);
    assert!(validate_publishing_package_data(&f, &manifest()).is_ok());
}

#[test]
fn other_extensions_are_refused_in_order() {
    let f = files(&["schema/lib.ks", "bin/tool.exe", "src/main.rs", "a/b.ks"]);
    match validate_publishing_package_data(&f, &manifest()) {
        Err(v) => {
            assert_eq!(v.len(), 2);
            match &v[0] {
                PackagingError::InvalidFile { path, reason } => {
                    assert_eq!(path, "bin/tool.exe");
                    assert_eq!(reason, "Invalid file extension: exe");
                },
                other => panic!("unexpected {:?}", other),
            }
            match &v[1] {
                PackagingError::InvalidFile { path, reason } => {
                    assert_eq!(path, "src/main.rs");
                    assert_eq!(reason, "Invalid file extension: rs");
                },
                other => panic!("unexpected {:?}", other),
            }
        },
        Ok(()) => panic!("expected refusals"),
    }
}

#[test]
fn a_trailing_slash_or_dot_part_is_looked_through() {
    let f = files(&["dir/app.bin/", "dir/app.bin/."]);
    match validate_publishing_package_data(&f, &manifest()) {
        Err(v) => assert_eq!(v.len(), 2),
        Ok(()) => panic!("expected refusals"),
    }
    assert!(validate_publishing_package_data(&files(&["x/.."]), &manifest()).is_ok());
}

#[test]
fn a_grant_names_exactly_one_target() {
    assert!(validate_grant_schema_role(Some(1), None).is_ok());
    assert!(validate_grant_schema_role(None, Some(2)).is_ok());
    let both = validate_grant_schema_role(Some(1), Some(2)).unwrap_err();
    assert_eq!(both.code, "exclusive_target");
    assert_eq!(both.message, "Cannot specify both user_id and org_id");
    let none = validate_grant_schema_role(None, None).unwrap_err();
    assert_eq!(none.code, "missing_target");
    assert_eq!(none.message, "Must specify either user_id or org_id");
}
