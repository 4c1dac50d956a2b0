use divechain::keychain_items::{
    collect_namespaces, keychain_service_name, map_delete_secret_error, namespace_from_service,
    ERR_SEC_ITEM_NOT_FOUND,
};
use divechain::secret_store::SecretStoreError;

#[test]
fn prefixes_namespace_in_keychain_service_name() {
    assert_eq!(keychain_service_name("aws"), "divechain-aws");
}

#[test]
fn extracts_namespace_from_service_name() {
    assert_eq!(namespace_from_service("divechain-aws"), Some("aws"));
}

#[test]
fn ignores_malformed_service_names() {
    assert_eq!(namespace_from_service("divechain-"), None);
    assert_eq!(namespace_from_service("not-divechain-aws"), None);
}

#[test]
fn collects_unique_namespaces_in_sorted_order() {
    let namespaces = collect_namespaces(vec![
        "divechain-zsh".to_owned(),
        "divechain-aws".to_owned(),
        "divechain-github".to_owned(),
        "divechain-aws".to_owned(),
        "not-divechain-ignored".to_owned(),
        "divechain-".to_owned(),
    ]);

    assert_eq!(namespaces, vec!["aws", "github", "zsh"]);
}

#[test]
fn converts_missing_secret_delete_into_domain_error() {
    let error = map_delete_secret_error("aws", "AWS_ACCESS_KEY_ID", ERR_SEC_ITEM_NOT_FOUND, None);

    match error {
        SecretStoreError::SecretNotFound { namespace, env } => {
            assert_eq!(namespace, "aws");
            assert_eq!(env, "AWS_ACCESS_KEY_ID");
        }
        _ => panic!("expected missing secret error variant"),
    }
}

#[test]
fn preserves_non_missing_delete_errors() {
    let error = map_delete_secret_error("aws", "AWS_ACCESS_KEY_ID", -1, Some("boom".to_owned()));

    match error {
        SecretStoreError::BackendFailure { code, message } => {
            assert_eq!(code, -1);
            assert_eq!(message.as_deref(), Some("boom"));
        }
        _ => panic!("expected keychain failure variant"),
    }
}

#[test]
fn service_name_of_namespace_gives_the_namespace_back() {
    for namespace in ["aws", "github", "a", "ns-with-dashes", "ünïcode"] {
        let service = keychain_service_name(namespace);
        assert_eq!(namespace_from_service(&service), Some(namespace));
    }
}

#[test]
fn collect_namespaces_of_nothing_is_empty() {
    assert!(collect_namespaces(vec![]).is_empty());
    assert!(collect_namespaces(vec!["other".to_owned(), "divechain-".to_owned()]).is_empty());
}

#[test]
fn collect_namespaces_orders_by_code_point() {
    let namespaces = collect_namespaces(vec![
        "divechain-b".to_owned(),
        "divechain-B".to_owned(),
        "divechain-a".to_owned(),
        "divechain-ab".to_owned(),
        "divechain-é".to_owned(),
        "divechain-b".to_owned(),
    ]);

    assert_eq!(namespaces, vec!["B", "a", "ab", "b", "é"]);
}

#[test]
fn prefix_alone_is_not_a_namespace_but_longer_names_are() {
    assert_eq!(namespace_from_service("divechain--"), Some("-"));
    assert_eq!(namespace_from_service("divechain"), None);
    assert_eq!(namespace_from_service(""), None);
}
