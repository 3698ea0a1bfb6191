use vault_client::error::VaultErrors;
use vault_client::mounts::mount_kind;

#[test]
fn vault_errors_join_with_newlines() {
    let e = VaultErrors { errors: vec!["permission denied".to_owned(), "bad role".to_owned()] };
    assert_eq!(e.message(), "permission denied\nbad role");
    let one = VaultErrors { errors: vec!["x".to_owned()] };
    assert_eq!(one.message(), "x");
    let none = VaultErrors { errors: vec![] };
    assert_eq!(none.message(), "");
}

#[test]
fn mount_kind_appends_version() {
    assert_eq!(mount_kind("kv", Some("2")), "kv2");
    assert_eq!(mount_kind("pki", None), "pki");
}
