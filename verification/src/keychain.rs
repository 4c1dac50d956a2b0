//! The keychain store: the same operations as [`SecretStore`], reporting
//! failures as [`KeychainError`].

use vstd::prelude::*;

use crate::keychain_items::{
    names_namespace, spec_service_name, ACCOUNT_ATTRIBUTE, ERR_SEC_ITEM_NOT_FOUND,
    KEYCHAIN_ITEM_LABEL, SERVICE_ATTRIBUTE,
};
use crate::secret_store::{
    delete_answer, deleted_items, fault_becomes, holds_items, listing_answer, lists_items, loading_answer,
    pairs_named, reads_before_succeeded, save_answer, saved_items, Keychain, KeychainFault,
    SecretStore, SecretStoreError,
};
use crate::std_items::io_error_message;
use crate::text::{int_decimal, push_i32_decimal, strictly_ascending, string_views};

verus! {

/// Errors of the keychain store.
#[derive(Debug)]
pub enum KeychainError {
    /// The keychain refused an operation with the given status.
    KeychainFailure { code: i32, message: Option<String> },
    /// No secret is stored under the namespace and environment variable name.
    SecretNotFound { namespace: String, env: String },
    /// The platform has no keychain the store can use.
    UnsupportedPlatform(&'static str),
    /// An input/output failure.
    Io(std::io::Error),
}

/// The text that describes a keychain error (for every error but
/// [`KeychainError::Io`], whose text is that of the underlying I/O error).
pub open spec fn keychain_error_text(e: KeychainError) -> Seq<char> {
    match e {
        KeychainError::KeychainFailure { code, message } => match message {
            Some(m) => "keychain operation failed with OSStatus "@ + int_decimal(code as int) + ": "@
                + m@,
            None => "keychain operation failed with OSStatus "@ + int_decimal(code as int),
        },
        KeychainError::SecretNotFound { namespace, env } => "secret '"@ + namespace@ + "."@ + env@
            + "' does not exist"@,
        KeychainError::UnsupportedPlatform(platform) => "macOS Keychain backend is unsupported on "@
            + platform@,
        KeychainError::Io(_) => Seq::empty(),
    }
}

/// The keychain error that a store error becomes.
pub open spec fn store_error_becomes(s: SecretStoreError, k: KeychainError) -> bool {
    match s {
        SecretStoreError::BackendFailure { code, message } => k matches KeychainError::KeychainFailure {
            code: c,
            message: m,
        } && c == code && m == message,
        SecretStoreError::SecretNotFound { namespace, env } => k matches KeychainError::SecretNotFound {
            namespace: n,
            env: v,
        } && n == namespace && v == env,
        SecretStoreError::UnsupportedPlatform(p) => k == KeychainError::UnsupportedPlatform(p),
        SecretStoreError::Io(io) => k == KeychainError::Io(io),
        SecretStoreError::NamespaceNotFound { .. } => false,
    }
}

impl KeychainError {
    /// The text that describes the error.
    pub fn to_string(&self) -> (text: String)
        ensures
            !(*self is Io) ==> text@ == keychain_error_text(*self),
    {
        match self {
            KeychainError::KeychainFailure { code, message } => {
                let mut text = "keychain operation failed with OSStatus ".to_owned();
                push_i32_decimal(&mut text, *code);
                match message {
                    Some(m) => {
                        text.append(": ");
                        text.append(m.as_str());
                    },
                    None => {},
                }
                text
            },
            KeychainError::SecretNotFound { namespace, env } => {
                let mut text = "secret '".to_owned();
                text.append(namespace.as_str());
                text.append(".");
                text.append(env.as_str());
                text.append("' does not exist");
                text
            },
            KeychainError::UnsupportedPlatform(platform) => {
                let mut text = "macOS Keychain backend is unsupported on ".to_owned();
                text.append(platform);
                text
            },
            KeychainError::Io(error) => io_error_message(error),
        }
    }

    /// The I/O error underneath, if the error is one.
    pub fn source(&self) -> (io: Option<&std::io::Error>)
        ensures
            match *self {
                KeychainError::Io(e) => io == Some(&e),
                _ => io is None,
            },
    {
        match self {
            KeychainError::Io(error) => Some(error),
            _ => None,
        }
    }

    /// Converts an error of the secret store; the store's operations never report
    /// a missing namespace, which has no counterpart here.
    pub fn from_store_error(error: SecretStoreError) -> (k: KeychainError)
        requires
            !(error is NamespaceNotFound),
        ensures
            store_error_becomes(error, k),
    {
        match error {
            SecretStoreError::BackendFailure { code, message } => KeychainError::KeychainFailure {
                code,
                message,
            },
            SecretStoreError::SecretNotFound { namespace, env } => KeychainError::SecretNotFound {
                namespace,
                env,
            },
            SecretStoreError::UnsupportedPlatform(platform) => KeychainError::UnsupportedPlatform(
                platform,
            ),
            SecretStoreError::Io(io) => KeychainError::Io(io),
            SecretStoreError::NamespaceNotFound { .. } => {
                proof {
                    assert(false);
                }
                KeychainError::UnsupportedPlatform("")
            },
        }
    }
}

impl From<std::io::Error> for KeychainError {
    fn from(error: std::io::Error) -> (e: Self) {
        KeychainError::Io(error)
    }
}

impl vstd::std_specs::convert::FromSpecImpl<std::io::Error> for KeychainError {
    open spec fn obeys_from_spec() -> bool {
        true
    }

    open spec fn from_spec(v: std::io::Error) -> Self {
        KeychainError::Io(v)
    }
}

/// The error is one that the keychain itself caused.
pub open spec fn is_keychain_failure(e: KeychainError) -> bool {
    e is KeychainFailure || e is UnsupportedPlatform
}

/// The keychain error that a keychain failure becomes.
pub open spec fn keychain_fault_becomes(f: KeychainFault, k: KeychainError) -> bool {
    match f {
        KeychainFault::Status { code, message } => k matches KeychainError::KeychainFailure {
            code: c,
            message: m,
        } && c == code && m == message,
        KeychainFault::Unsupported(p) => k == KeychainError::UnsupportedPlatform(p),
    }
}

/// What the keychain store makes of the keychain's answer to a save.
pub open spec fn keychain_save_answer(outcome: Result<(), KeychainFault>, result: Result<(), KeychainError>) -> bool {
    match outcome {
        Ok(()) => result is Ok,
        Err(f) => result matches Err(e) && keychain_fault_becomes(f, e),
    }
}

/// What the keychain store makes of the keychain's answer to the delete of the
/// secret of `env` in `namespace`.
pub open spec fn keychain_delete_answer(
    namespace: Seq<char>,
    env: Seq<char>,
    outcome: Result<(), KeychainFault>,
    result: Result<(), KeychainError>,
) -> bool {
    match outcome {
        Ok(()) => result is Ok,
        Err(KeychainFault::Status { code, message }) => if code == ERR_SEC_ITEM_NOT_FOUND {
            result matches Err(KeychainError::SecretNotFound { namespace: n, env: v }) && n@
                == namespace && v@ == env
        } else {
            result matches Err(e) && keychain_fault_becomes(KeychainFault::Status { code, message }, e)
        },
        Err(f) => result matches Err(e) && keychain_fault_becomes(f, e),
    }
}

/// The namespaces the keychain store lists for the answer to a search for the
/// services of this tool's items: sorted, each once, exactly those the services name.
pub open spec fn keychain_listing_answer(
    outcome: Result<Vec<String>, KeychainFault>,
    result: Result<Vec<String>, KeychainError>,
) -> bool {
    match outcome {
        Ok(services) => result matches Ok(namespaces) && strictly_ascending(
            string_views(namespaces@),
        ) && forall|n: Seq<char>|
            #[trigger] string_views(namespaces@).contains(n) <==> names_namespace(
                string_views(services@),
                n,
            ),
        Err(KeychainFault::Status { code, message }) => if code == ERR_SEC_ITEM_NOT_FOUND {
            result matches Ok(v) && v@.len() == 0
        } else {
            result matches Err(e) && keychain_fault_becomes(KeychainFault::Status { code, message }, e)
        },
        Err(f) => result matches Err(e) && keychain_fault_becomes(f, e),
    }
}

/// What reading the item of every account of `service`, in order, gives the
/// keychain store: each account with the secret read for it, or the failure of
/// one read.
pub open spec fn keychain_collected<K: Keychain>(
    keychain: K,
    service: Seq<char>,
    accounts: Seq<String>,
    result: Result<Vec<(String, Vec<u8>)>, KeychainError>,
) -> bool {
    match result {
        Ok(pairs) => pairs_named(pairs@, accounts) && forall|i: int|
            0 <= i < pairs@.len() ==> #[trigger] keychain.read_outcome(
                service,
                accounts[i]@,
                Ok::<Vec<u8>, KeychainFault>(pairs@[i].1),
            ),
        Err(e) => exists|i: int, f: KeychainFault|
            0 <= i < accounts.len() && #[trigger] keychain.read_outcome(
                service,
                accounts[i]@,
                Err::<Vec<u8>, KeychainFault>(f),
            ) && keychain_fault_becomes(f, e) && reads_before_succeeded(
                keychain,
                service,
                accounts,
                i,
            ),
    }
}

/// The secrets the keychain store loads for the answer to a search for the
/// accounts of the items of `service`.
pub open spec fn keychain_loading_answer<K: Keychain>(
    keychain: K,
    service: Seq<char>,
    outcome: Result<Vec<String>, KeychainFault>,
    result: Result<Vec<(String, Vec<u8>)>, KeychainError>,
) -> bool {
    match outcome {
        Ok(accounts) => keychain_collected(keychain, service, accounts@, result),
        Err(KeychainFault::Status { code, message }) => if code == ERR_SEC_ITEM_NOT_FOUND {
            result matches Ok(v) && v@.len() == 0
        } else {
            result matches Err(e) && keychain_fault_becomes(KeychainFault::Status { code, message }, e)
        },
        Err(f) => result matches Err(e) && keychain_fault_becomes(f, e),
    }
}

/// The keychain store's result for saving `secret` as `env` in `namespace`.
pub open spec fn keychain_store_saves<K: Keychain>(
    keychain: K,
    namespace: Seq<char>,
    env: Seq<char>,
    secret: Seq<u8>,
    result: Result<(), KeychainError>,
) -> bool {
    exists|outcome: Result<(), KeychainFault>|
        #[trigger] keychain.set_outcome(
            spec_service_name(namespace),
            env,
            KEYCHAIN_ITEM_LABEL@,
            secret,
            outcome,
        ) && keychain_save_answer(outcome, result)
}

/// The keychain store's result for deleting `env` from `namespace`.
pub open spec fn keychain_store_deletes<K: Keychain>(
    keychain: K,
    namespace: Seq<char>,
    env: Seq<char>,
    result: Result<(), KeychainError>,
) -> bool {
    exists|outcome: Result<(), KeychainFault>|
        #[trigger] keychain.delete_outcome(spec_service_name(namespace), env, outcome)
            && keychain_delete_answer(namespace, env, outcome, result)
}

/// The keychain store's listing of namespaces.
pub open spec fn keychain_store_lists<K: Keychain>(keychain: K, result: Result<Vec<String>, KeychainError>) -> bool {
    exists|outcome: Result<Vec<String>, KeychainFault>|
        #[trigger] keychain.find_outcome(KEYCHAIN_ITEM_LABEL@, None, SERVICE_ATTRIBUTE@, outcome)
            && keychain_listing_answer(outcome, result)
}

/// The keychain store's secrets of `namespace`.
pub open spec fn keychain_store_loads<K: Keychain>(
    keychain: K,
    namespace: Seq<char>,
    result: Result<Vec<(String, Vec<u8>)>, KeychainError>,
) -> bool {
    exists|outcome: Result<Vec<String>, KeychainFault>|
        #[trigger] keychain.find_outcome(
            KEYCHAIN_ITEM_LABEL@,
            Some(spec_service_name(namespace)),
            ACCOUNT_ATTRIBUTE@,
            outcome,
        ) && keychain_loading_answer(keychain, spec_service_name(namespace), outcome, result)
}

/// A keychain failure that becomes a store error, converted, is the keychain error
/// that the failure becomes.
proof fn lemma_fault_conversion(f: KeychainFault, e: SecretStoreError, k: KeychainError)
    requires
        fault_becomes(f, e),
        store_error_becomes(e, k),
    ensures
        keychain_fault_becomes(f, k),
{
}

/// The keychain store. Each operation goes through the keychain it is given.
#[derive(Debug, Clone, Copy)]
pub struct KeychainStore;

impl Default for KeychainStore {
    fn default() -> (store: Self)
        ensures
            store == KeychainStore,
    {
        KeychainStore
    }
}

impl KeychainStore {
    pub fn new() -> (store: Self)
        ensures
            store == KeychainStore,
    {
        KeychainStore
    }

    /// Creates or updates the secret of `env` in `namespace`.
    pub fn save_secret<K: Keychain>(self, namespace: &str, env: &str, secret: &[u8], keychain: &mut K) -> (result:
        Result<(), KeychainError>)
        ensures
            keychain_store_saves(*old(keychain), namespace@, env@, secret@, result),
            result matches Err(e) ==> is_keychain_failure(e),
            old(keychain).keeps_items() ==> final(keychain).keeps_items() && final(keychain).items() == (
            if result is Ok {
                saved_items(old(keychain).items(), namespace@, env@, secret@)
            } else {
                old(keychain).items()
            }),
    {
        let ghost before = *keychain;
        let saved = SecretStore::new().save_secret(namespace, env, secret, keychain);
        let ghost service = spec_service_name(namespace@);
        let ghost outcome = choose|outcome: Result<(), KeychainFault>|
            #[trigger] before.set_outcome(service, env@, KEYCHAIN_ITEM_LABEL@, secret@, outcome)
                && save_answer(outcome, saved);
        let ghost stored = saved;
        let result = match saved {
            Ok(()) => Ok(()),
            Err(error) => Err(KeychainError::from_store_error(error)),
        };
        proof {
            if let Err(f) = outcome {
                lemma_fault_conversion(f, stored->Err_0, result->Err_0);
            }
            assert(keychain_save_answer(outcome, result));
            assert(before.set_outcome(service, env@, KEYCHAIN_ITEM_LABEL@, secret@, outcome));
        }
        result
    }

    /// Deletes the secret of `env` in `namespace`; a secret that does not exist is
    /// reported as [`KeychainError::SecretNotFound`] for exactly that pair.
    pub fn delete_secret<K: Keychain>(self, namespace: &str, env: &str, keychain: &mut K) -> (result:
        Result<(), KeychainError>)
        ensures
            result matches Err(e) ==> is_keychain_failure(e) || (e matches KeychainError::SecretNotFound {
                namespace: n,
                env: v,
            } && n@ == namespace@ && v@ == env@),
            keychain_store_deletes(*old(keychain), namespace@, env@, result),
            old(keychain).keeps_items() ==> final(keychain).keeps_items() && final(keychain).items() == (
            if result is Ok {
                deleted_items(old(keychain).items(), namespace@, env@)
            } else {
                old(keychain).items()
            }),
    {
        let ghost before = *keychain;
        let deleted = SecretStore::new().delete_secret(namespace, env, keychain);
        let ghost service = spec_service_name(namespace@);
        let ghost outcome = choose|outcome: Result<(), KeychainFault>|
            #[trigger] before.delete_outcome(service, env@, outcome) && delete_answer(
                namespace@,
                env@,
                outcome,
                deleted,
            );
        let ghost stored = deleted;
        let result = match deleted {
            Ok(()) => Ok(()),
            Err(error) => Err(KeychainError::from_store_error(error)),
        };
        proof {
            if let Err(f) = outcome {
                if !(f matches KeychainFault::Status { code, .. } && code == ERR_SEC_ITEM_NOT_FOUND) {
                    lemma_fault_conversion(f, stored->Err_0, result->Err_0);
                }
            }
            assert(keychain_delete_answer(namespace@, env@, outcome, result));
            assert(before.delete_outcome(service, env@, outcome));
        }
        result
    }

    /// The namespaces that hold secrets: sorted, each once, none empty.
    pub fn list_namespaces<K: Keychain>(self, keychain: &K) -> (result: Result<
        Vec<String>,
        KeychainError,
    >)
        ensures
            result matches Ok(namespaces) ==> strictly_ascending(string_views(namespaces@))
                && forall|i: int| 0 <= i < namespaces@.len() ==> #[trigger] namespaces@[i]@.len() > 0,
            result matches Err(e) ==> is_keychain_failure(e),
            keychain_store_lists(*keychain, result),
            keychain.keeps_items() && result is Ok ==> lists_items(keychain.items(), result->Ok_0@),
    {
        let listed = SecretStore::new().list_namespaces(keychain);
        let ghost outcome = choose|outcome: Result<Vec<String>, KeychainFault>|
            #[trigger] keychain.find_outcome(KEYCHAIN_ITEM_LABEL@, None, SERVICE_ATTRIBUTE@, outcome)
                && listing_answer(outcome, listed);
        let ghost stored = listed;
        let result = match listed {
            Ok(namespaces) => Ok(namespaces),
            Err(error) => Err(KeychainError::from_store_error(error)),
        };
        proof {
            if let Err(f) = outcome {
                if !(f matches KeychainFault::Status { code, .. } && code == ERR_SEC_ITEM_NOT_FOUND) {
                    lemma_fault_conversion(f, stored->Err_0, result->Err_0);
                }
            }
            assert(keychain_listing_answer(outcome, result));
            assert(keychain.find_outcome(KEYCHAIN_ITEM_LABEL@, None, SERVICE_ATTRIBUTE@, outcome));
        }
        result
    }

    /// Every environment variable name and secret stored in `namespace`.
    pub fn load_namespace_env<K: Keychain>(self, namespace: &str, keychain: &K) -> (result: Result<
        Vec<(String, Vec<u8>)>,
        KeychainError,
    >)
        ensures
            keychain_store_loads(*keychain, namespace@, result),
            result matches Err(e) ==> is_keychain_failure(e),
            keychain.keeps_items() && result is Ok ==> holds_items(
                keychain.items(),
                spec_service_name(namespace@),
                result->Ok_0@,
            ),
    {
        let loaded = SecretStore::new().load_namespace_env(namespace, keychain);
        let ghost service = spec_service_name(namespace@);
        let ghost outcome = choose|outcome: Result<Vec<String>, KeychainFault>|
            #[trigger] keychain.find_outcome(
                KEYCHAIN_ITEM_LABEL@,
                Some(service),
                ACCOUNT_ATTRIBUTE@,
                outcome,
            ) && loading_answer(*keychain, service, outcome, loaded);
        let ghost stored = loaded;
        let result = match loaded {
            Ok(pairs) => Ok(pairs),
            Err(error) => Err(KeychainError::from_store_error(error)),
        };
        proof {
            match outcome {
                Ok(accounts) => {
                    if let Err(e) = stored {
                        let (i, f) = choose|i: int, f: KeychainFault|
                            0 <= i < accounts@.len() && #[trigger] keychain.read_outcome(
                                service,
                                accounts@[i]@,
                                Err::<Vec<u8>, KeychainFault>(f),
                            ) && fault_becomes(f, e) && reads_before_succeeded(
                                *keychain,
                                service,
                                accounts@,
                                i,
                            );
                        lemma_fault_conversion(f, e, result->Err_0);
                        assert(keychain.read_outcome(
                            service,
                            accounts@[i]@,
                            Err::<Vec<u8>, KeychainFault>(f),
                        ));
                    }
                },
                Err(f) => {
                    if !(f matches KeychainFault::Status { code, .. } && code == ERR_SEC_ITEM_NOT_FOUND) {
                        lemma_fault_conversion(f, stored->Err_0, result->Err_0);
                    }
                },
            }
            assert(keychain_loading_answer(*keychain, service, outcome, result));
            assert(keychain.find_outcome(KEYCHAIN_ITEM_LABEL@, Some(service), ACCOUNT_ATTRIBUTE@, outcome));
        }
        result
    }
}

} // verus!
