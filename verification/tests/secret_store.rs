use divechain::keychain::{KeychainError, KeychainStore};
use divechain::keychain_items::ERR_SEC_ITEM_NOT_FOUND;
use divechain::secret_store::{
    namespace_env_or_not_found, search_result, Keychain, KeychainFault, SecretStore, SecretStoreError, UnsupportedKeychain,
};

#[test]
fn namespace_not_found_error_formats_cleanly() {
    let error = SecretStoreError::NamespaceNotFound {
        namespace: "aws".to_owned(),
    };

    assert_eq!(error.to_string(), "namespace 'aws' does not exist");
}

#[test]
fn secret_store_store_is_constructible() {
    let _ = SecretStore::new();
}

#[test]
fn keychain_store_is_constructible() {
    let _ = KeychainStore::new();
}

const PLATFORM: &str = "test-os";

#[test]
fn secret_store_backend_is_disabled_outside_macos() {
    let error = SecretStore::new()
        .save_secret("namespace", "ENV_NAME", b"secret", &mut UnsupportedKeychain::new(PLATFORM))
        .expect_err("non-mac targets should reject keychain access");

    match error {
        SecretStoreError::UnsupportedPlatform(platform) => {
            assert_eq!(platform, PLATFORM);
        }
        other => panic!("expected unsupported platform, got {:?}", other),
    }
}

#[test]
fn secret_store_list_namespaces_is_disabled_outside_macos() {
    let error = SecretStore::new()
        .list_namespaces(&UnsupportedKeychain::new(PLATFORM))
        .expect_err("non-mac targets should reject keychain access");

    match error {
        SecretStoreError::UnsupportedPlatform(platform) => {
            assert_eq!(platform, PLATFORM);
        }
        other => panic!("expected unsupported platform, got {:?}", other),
    }
}

#[test]
fn secret_store_load_namespace_env_is_disabled_outside_macos() {
    let error = SecretStore::new()
        .load_namespace_env("namespace", &UnsupportedKeychain::new(PLATFORM))
        .expect_err("non-mac targets should reject keychain access");

    match error {
        SecretStoreError::UnsupportedPlatform(platform) => {
            assert_eq!(platform, PLATFORM);
        }
        other => panic!("expected unsupported platform, got {:?}", other),
    }
}

#[test]
fn secret_store_delete_secret_is_disabled_outside_macos() {
    let error = SecretStore::new()
        .delete_secret("namespace", "ENV_NAME", &mut UnsupportedKeychain::new(PLATFORM))
        .expect_err("non-mac targets should reject keychain access");

    match error {
        SecretStoreError::UnsupportedPlatform(platform) => {
            assert_eq!(platform, PLATFORM);
        }
        other => panic!("expected unsupported platform, got {:?}", other),
    }
}

#[test]
fn keychain_backend_is_disabled_outside_macos() {
    let error = KeychainStore::new()
        .save_secret("namespace", "ENV_NAME", b"secret", &mut UnsupportedKeychain::new(PLATFORM))
        .expect_err("non-mac targets should reject keychain access");

    match error {
        KeychainError::UnsupportedPlatform(platform) => {
            assert_eq!(platform, PLATFORM);
        }
        other => panic!("expected unsupported platform, got {other:?}"),
    }
}

#[test]
fn keychain_list_namespaces_is_disabled_outside_macos() {
    let error = KeychainStore::new()
        .list_namespaces(&UnsupportedKeychain::new(PLATFORM))
        .expect_err("non-mac targets should reject keychain access");

    match error {
        KeychainError::UnsupportedPlatform(platform) => {
            assert_eq!(platform, PLATFORM);
        }
        other => panic!("expected unsupported platform, got {other:?}"),
    }
}

#[test]
fn keychain_load_namespace_env_is_disabled_outside_macos() {
    let error = KeychainStore::new()
        .load_namespace_env("namespace", &UnsupportedKeychain::new(PLATFORM))
        .expect_err("non-mac targets should reject keychain access");

    match error {
        KeychainError::UnsupportedPlatform(platform) => {
            assert_eq!(platform, PLATFORM);
        }
        other => panic!("expected unsupported platform, got {other:?}"),
    }
}

#[test]
fn keychain_delete_secret_is_disabled_outside_macos() {
    let error = KeychainStore::new()
        .delete_secret("namespace", "ENV_NAME", &mut UnsupportedKeychain::new(PLATFORM))
        .expect_err("non-mac targets should reject keychain access");

    match error {
        KeychainError::UnsupportedPlatform(platform) => {
            assert_eq!(platform, PLATFORM);
        }
        other => panic!("expected unsupported platform, got {other:?}"),
    }
}

/// A keychain held in memory, for exercising the store.
#[derive(Default)]
struct MemoryKeychain {
    items: Vec<(String, String, String, Vec<u8>)>,
}

fn status(code: i32) -> KeychainFault {
    KeychainFault::Status { code, message: None }
}

impl Keychain for MemoryKeychain {
    fn set_generic_password(
        &mut self,
        service: &str,
        account: &str,
        label: &str,
        secret: &[u8],
    ) -> Result<(), KeychainFault> {
        let items = &mut self.items;
        items.retain(|item| !(item.0 == service && item.1 == account));
        items.push((service.to_owned(), account.to_owned(), label.to_owned(), secret.to_vec()));
        Ok(())
    }

    fn delete_generic_password(&mut self, service: &str, account: &str) -> Result<(), KeychainFault> {
        let items = &mut self.items;
        let before = items.len();
        items.retain(|item| !(item.0 == service && item.1 == account));
        if items.len() == before {
            Err(status(ERR_SEC_ITEM_NOT_FOUND))
        } else {
            Ok(())
        }
    }

    fn find_generic_passwords(
        &self,
        label: &str,
        service: Option<&str>,
        attribute: &str,
    ) -> Result<Vec<String>, KeychainFault> {
        let found: Vec<String> = self
            .items
            .iter()
            .filter(|item| item.2 == label && service.map_or(true, |s| item.0 == s))
            .map(|item| if attribute == "svce" { item.0.clone() } else { item.1.clone() })
            .collect();
        if found.is_empty() {
            Err(status(ERR_SEC_ITEM_NOT_FOUND))
        } else {
            Ok(found)
        }
    }

    fn generic_password(&self, service: &str, account: &str) -> Result<Vec<u8>, KeychainFault> {
        self.items
            .iter()
            .find(|item| item.0 == service && item.1 == account)
            .map(|item| item.3.clone())
            .ok_or(status(ERR_SEC_ITEM_NOT_FOUND))
    }
}

#[test]
fn saved_secrets_are_listed_and_loaded() {
    let mut keychain = MemoryKeychain::default();
    let store = SecretStore::new();
    store.save_secret("rails", "RAILS_ENV", b"production", &mut keychain).unwrap();
    store.save_secret("github", "GITHUB_ENV", b"token", &mut keychain).unwrap();
    store.save_secret("github", "GITHUB_USER", b"jane", &mut keychain).unwrap();
    store.save_secret("github", "GITHUB_ENV", b"token2", &mut keychain).unwrap();

    assert_eq!(store.list_namespaces(&keychain).unwrap(), vec!["github", "rails"]);
    assert_eq!(
        store.load_namespace_env("github", &keychain).unwrap(),
        vec![
            ("GITHUB_USER".to_owned(), b"jane".to_vec()),
            ("GITHUB_ENV".to_owned(), b"token2".to_vec()),
        ]
    );
    assert_eq!(store.load_namespace_env("aws", &keychain).unwrap(), vec![]);
}

#[test]
fn deleting_a_missing_secret_names_it() {
    let mut keychain = MemoryKeychain::default();
    let store = SecretStore::new();
    store.save_secret("aws", "AWS_ENV", b"x", &mut keychain).unwrap();
    store.delete_secret("aws", "AWS_ENV", &mut keychain).unwrap();

    match store.delete_secret("aws", "AWS_ENV", &mut keychain) {
        Err(SecretStoreError::SecretNotFound { namespace, env }) => {
            assert_eq!(namespace, "aws");
            assert_eq!(env, "AWS_ENV");
        }
        other => panic!("expected missing secret, got {:?}", other),
    }
    assert_eq!(store.list_namespaces(&keychain).unwrap(), Vec::<String>::new());
}

#[test]
fn a_deleted_secret_is_no_longer_loaded() {
    let mut keychain = MemoryKeychain::default();
    let store = SecretStore::new();
    store.save_secret("aws", "AWS_KEY", b"k", &mut keychain).unwrap();
    store.save_secret("aws", "AWS_SECRET", b"s", &mut keychain).unwrap();
    store.delete_secret("aws", "AWS_KEY", &mut keychain).unwrap();
    assert_eq!(
        store.load_namespace_env("aws", &keychain).unwrap(),
        vec![("AWS_SECRET".to_owned(), b"s".to_vec())]
    );
}

#[test]
fn keychain_store_saves_and_loads_through_the_keychain() {
    let mut keychain = MemoryKeychain::default();
    let store = KeychainStore::new();
    store.save_secret("db", "DB_PASSWORD", b"hunter2", &mut keychain).unwrap();
    assert_eq!(
        store.load_namespace_env("db", &keychain).unwrap(),
        vec![("DB_PASSWORD".to_owned(), b"hunter2".to_vec())]
    );
    store.delete_secret("db", "DB_PASSWORD", &mut keychain).unwrap();
    assert_eq!(store.load_namespace_env("db", &keychain).unwrap(), vec![]);
}

#[test]
fn keychain_store_reports_missing_secret() {
    let mut keychain = MemoryKeychain::default();
    let error = KeychainStore::new()
        .delete_secret("aws", "AWS_ENV", &mut keychain)
        .expect_err("nothing to delete");
    assert_eq!(error.to_string(), "secret 'aws.AWS_ENV' does not exist");
}

#[test]
fn search_without_match_is_empty_and_other_failures_are_kept() {
    assert_eq!(search_result(Err(status(ERR_SEC_ITEM_NOT_FOUND))).unwrap(), Vec::<String>::new());
    match search_result(Err(KeychainFault::Status { code: -128, message: Some("denied".to_owned()) })) {
        Err(SecretStoreError::BackendFailure { code, message }) => {
            assert_eq!(code, -128);
            assert_eq!(message.as_deref(), Some("denied"));
        }
        other => panic!("expected backend failure, got {:?}", other),
    }
    assert_eq!(search_result(Ok(vec!["a".to_owned()])).unwrap(), vec!["a"]);
}

#[test]
fn store_errors_format_like_their_descriptions() {
    let failure = SecretStoreError::BackendFailure { code: -25293, message: Some("bad auth".to_owned()) };
    assert_eq!(failure.to_string(), "keychain operation failed with OSStatus -25293: bad auth");
    let bare = SecretStoreError::BackendFailure { code: 0, message: None };
    assert_eq!(bare.to_string(), "keychain operation failed with OSStatus 0: no message");
    let min = SecretStoreError::BackendFailure { code: i32::MIN, message: None };
    assert_eq!(min.to_string(), "keychain operation failed with OSStatus -2147483648: no message");
    let missing = SecretStoreError::SecretNotFound { namespace: "aws".to_owned(), env: "KEY".to_owned() };
    assert_eq!(missing.to_string(), "secret 'aws.KEY' does not exist");
    let unsupported = SecretStoreError::UnsupportedPlatform("linux");
    assert_eq!(unsupported.to_string(), "macOS Keychain backend is unsupported on linux");
    let io: SecretStoreError = std::io::Error::new(std::io::ErrorKind::Other, "pipe broke").into();
    assert_eq!(io.to_string(), "pipe broke");
}

#[test]
fn keychain_errors_format_like_their_descriptions() {
    let failure = KeychainError::KeychainFailure { code: 12, message: Some("oops".to_owned()) };
    assert_eq!(failure.to_string(), "keychain operation failed with OSStatus 12: oops");
    let bare = KeychainError::KeychainFailure { code: -7, message: None };
    assert_eq!(bare.to_string(), "keychain operation failed with OSStatus -7");
    let unsupported = KeychainError::UnsupportedPlatform("linux");
    assert_eq!(unsupported.to_string(), "macOS Keychain backend is unsupported on linux");
    assert!(unsupported.source().is_none());
    let io: KeychainError = std::io::Error::new(std::io::ErrorKind::Other, "disk").into();
    assert_eq!(io.to_string(), "disk");
    assert_eq!(io.source().map(|e| e.to_string()), Some("disk".to_owned()));
}

#[test]
fn exec_refuses_a_namespace_without_secrets() {
    match namespace_env_or_not_found("aws", Ok(vec![])) {
        Err(error @ SecretStoreError::NamespaceNotFound { .. }) => {
            assert_eq!(error.to_string(), "namespace 'aws' does not exist");
        }
        other => panic!("expected missing namespace, got {:?}", other),
    }
    let secrets = vec![("KEY".to_owned(), b"v".to_vec())];
    assert_eq!(namespace_env_or_not_found("aws", Ok(secrets.clone())).unwrap(), secrets);
    assert!(matches!(
        namespace_env_or_not_found("aws", Err(SecretStoreError::UnsupportedPlatform("linux"))),
        Err(SecretStoreError::UnsupportedPlatform("linux"))
    ));
}
