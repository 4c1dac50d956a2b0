//! The secret store: saving, deleting and loading the secrets of a namespace,
//! and listing the namespaces that hold secrets.
//!
//! The store keeps its secrets as generic passwords in a platform keychain whose
//! service name is derived from the namespace and whose account is the name of the
//! environment variable. The keychain itself is reached through [`Keychain`].

use vstd::prelude::*;

use crate::keychain_items::{
    collect_namespaces, keychain_service_name, lemma_namespace_of_service_name,
    map_delete_secret_error, spec_namespace_of, spec_service_name, ACCOUNT_ATTRIBUTE,
    ERR_SEC_ITEM_NOT_FOUND, KEYCHAIN_ITEM_LABEL, SERVICE_ATTRIBUTE,
};
use crate::std_items::io_error_message;
use crate::text::{int_decimal, push_i32_decimal, strictly_ascending, string_views};

verus! {

/// Errors of the secret store.
#[derive(Debug)]
pub enum SecretStoreError {
    /// The keychain refused an operation with the given status.
    BackendFailure { code: i32, message: Option<String> },
    /// No secret is stored under the namespace.
    NamespaceNotFound { namespace: String },
    /// No secret is stored under the namespace and environment variable name.
    SecretNotFound { namespace: String, env: String },
    /// The platform has no keychain the store can use.
    UnsupportedPlatform(&'static str),
    /// An input/output failure.
    Io(std::io::Error),
}

/// A failure reported by a [`Keychain`].
#[derive(Debug)]
pub enum KeychainFault {
    /// The keychain answered with a non-success status code.
    Status { code: i32, message: Option<String> },
    /// There is no keychain on this platform.
    Unsupported(&'static str),
}

/// The character view of an optional string.
pub open spec fn opt_view(s: Option<&str>) -> Option<Seq<char>> {
    match s {
        Some(t) => Some(t@),
        None => None,
    }
}

/// The items a keychain holds, as the store sees them: for each service and
/// account, the item's label and secret.
pub type KeychainItems = Map<(Seq<char>, Seq<char>), (Seq<char>, Seq<u8>)>;

/// The item of `key` is held, has label `label` and, when a service is given, that
/// service.
pub open spec fn item_matches(
    items: KeychainItems,
    key: (Seq<char>, Seq<char>),
    label: Seq<char>,
    service: Option<Seq<char>>,
) -> bool {
    &&& items.contains_key(key)
    &&& items[key].0 == label
    &&& service matches Some(s) ==> key.0 == s
}

/// The value of an attribute of the item of `key`: its service or its account.
pub open spec fn attribute_value(key: (Seq<char>, Seq<char>), attribute: Seq<char>) -> Option<Seq<char>> {
    if attribute == SERVICE_ATTRIBUTE@ {
        Some(key.0)
    } else if attribute == ACCOUNT_ATTRIBUTE@ {
        Some(key.1)
    } else {
        None
    }
}

/// The answer of a keychain that holds `items` to a search for the items with label
/// `label` (and service `service`, when given), reporting attribute `attribute`:
/// the values found are the attribute's values of the matching items, the accounts
/// of one service each once, and "no item" is answered only when none matches.
pub open spec fn search_reports(
    items: KeychainItems,
    label: Seq<char>,
    service: Option<Seq<char>>,
    attribute: Seq<char>,
    outcome: Result<Vec<String>, KeychainFault>,
) -> bool {
    match outcome {
        Ok(found) => {
            &&& forall|i: int|
                #![trigger found@[i]]
                0 <= i < found@.len() ==> exists|key: (Seq<char>, Seq<char>)|
                    #[trigger] item_matches(items, key, label, service) && attribute_value(key, attribute)
                        == Some(found@[i]@)
            &&& forall|key: (Seq<char>, Seq<char>)|
                #[trigger] item_matches(items, key, label, service) && attribute_value(key, attribute) is Some
                    ==> string_views(found@).contains(attribute_value(key, attribute)->Some_0)
            &&& (service is Some && attribute == ACCOUNT_ATTRIBUTE@) ==> string_views(found@).no_duplicates()
        },
        Err(KeychainFault::Status { code, .. }) => code == ERR_SEC_ITEM_NOT_FOUND ==> forall|
            key: (Seq<char>, Seq<char>),
        | !#[trigger] item_matches(items, key, label, service),
        Err(KeychainFault::Unsupported(_)) => true,
    }
}

/// The operations of a platform keychain on generic passwords that the store
/// performs.
///
/// What an operation answers depends on what the keychain of the machine holds,
/// so nothing fixes it in general. Each operation's answer is related to the
/// arguments it was given by a predicate of the keychain: callers can then say
/// which item an answer is about, and an implementation may say which answers it
/// gives. By default a predicate admits every answer.
///
/// A keychain may moreover say that it [keeps its items](Keychain::keeps_items):
/// then its operations are those of a store of the items it holds.
pub trait Keychain {
    /// `outcome` is an answer of this keychain to storing `secret` for `service`
    /// and `account` under label `label`.
    open spec fn set_outcome(
        &self,
        service: Seq<char>,
        account: Seq<char>,
        label: Seq<char>,
        secret: Seq<u8>,
        outcome: Result<(), KeychainFault>,
    ) -> bool {
        true
    }

    /// `outcome` is an answer of this keychain to deleting the item of `service`
    /// and `account`.
    open spec fn delete_outcome(
        &self,
        service: Seq<char>,
        account: Seq<char>,
        outcome: Result<(), KeychainFault>,
    ) -> bool {
        true
    }

    /// `outcome` is an answer of this keychain to a search for the items with label
    /// `label` (and service `service`, when given), reporting attribute `attribute`.
    open spec fn find_outcome(
        &self,
        label: Seq<char>,
        service: Option<Seq<char>>,
        attribute: Seq<char>,
        outcome: Result<Vec<String>, KeychainFault>,
    ) -> bool {
        true
    }

    /// `outcome` is an answer of this keychain to reading the item of `service`
    /// and `account`.
    open spec fn read_outcome(
        &self,
        service: Seq<char>,
        account: Seq<char>,
        outcome: Result<Vec<u8>, KeychainFault>,
    ) -> bool {
        true
    }

    /// The keychain behaves as a store of [its items](Keychain::items): a write or
    /// a delete that succeeds stores or removes the item and one that fails changes
    /// nothing, a search reports the matching items, and a read gives back the
    /// secret held. No keychain is taken to do so unless it says so.
    open spec fn keeps_items(&self) -> bool {
        false
    }

    /// The items this keychain holds, when it [keeps them](Keychain::keeps_items).
    open spec fn items(&self) -> KeychainItems {
        Map::empty()
    }

    /// Creates or updates the password stored for `service` and `account`,
    /// giving the item the label `label`.
    fn set_generic_password(&mut self, service: &str, account: &str, label: &str, secret: &[u8]) -> (result:
        Result<(), KeychainFault>)
        ensures
            old(self).set_outcome(service@, account@, label@, secret@, result),
            old(self).keeps_items() ==> final(self).keeps_items() && final(self).items() == (if result is Ok {
                old(self).items().insert((service@, account@), (label@, secret@))
            } else {
                old(self).items()
            }),
    ;

    /// Deletes the password stored for `service` and `account`.
    fn delete_generic_password(&mut self, service: &str, account: &str) -> (result: Result<
        (),
        KeychainFault,
    >)
        ensures
            old(self).delete_outcome(service@, account@, result),
            old(self).keeps_items() ==> final(self).keeps_items() && final(self).items() == (if result is Ok {
                old(self).items().remove((service@, account@))
            } else {
                old(self).items()
            }),
    ;

    /// Finds every generic password with label `label` (and service `service`,
    /// when given) and returns the value of attribute `attribute` of each.
    fn find_generic_passwords(&self, label: &str, service: Option<&str>, attribute: &str) -> (result:
        Result<Vec<String>, KeychainFault>)
        ensures
            self.find_outcome(label@, opt_view(service), attribute@, result),
            self.keeps_items() ==> search_reports(
                self.items(),
                label@,
                opt_view(service),
                attribute@,
                result,
            ),
    ;

    /// Reads the password stored for `service` and `account`.
    fn generic_password(&self, service: &str, account: &str) -> (result: Result<
        Vec<u8>,
        KeychainFault,
    >)
        ensures
            self.read_outcome(service@, account@, result),
            self.keeps_items() && result is Ok ==> self.items().contains_key((service@, account@))
                && self.items()[(service@, account@)].1 == result->Ok_0@,
    ;
}

/// The keychain of a platform that has none: every operation fails with
/// [`KeychainFault::Unsupported`] naming the platform.
#[derive(Debug, Clone, Copy)]
pub struct UnsupportedKeychain {
    pub platform: &'static str,
}

impl UnsupportedKeychain {
    pub fn new(platform: &'static str) -> (keychain: Self)
        ensures
            keychain.platform == platform,
    {
        UnsupportedKeychain { platform }
    }
}

impl Keychain for UnsupportedKeychain {
    /// It holds no item, and no operation changes that.
    open spec fn keeps_items(&self) -> bool {
        true
    }

    open spec fn set_outcome(
        &self,
        service: Seq<char>,
        account: Seq<char>,
        label: Seq<char>,
        secret: Seq<u8>,
        outcome: Result<(), KeychainFault>,
    ) -> bool {
        outcome == Err::<(), KeychainFault>(KeychainFault::Unsupported(self.platform))
    }

    open spec fn delete_outcome(
        &self,
        service: Seq<char>,
        account: Seq<char>,
        outcome: Result<(), KeychainFault>,
    ) -> bool {
        outcome == Err::<(), KeychainFault>(KeychainFault::Unsupported(self.platform))
    }

    open spec fn find_outcome(
        &self,
        label: Seq<char>,
        service: Option<Seq<char>>,
        attribute: Seq<char>,
        outcome: Result<Vec<String>, KeychainFault>,
    ) -> bool {
        outcome == Err::<Vec<String>, KeychainFault>(KeychainFault::Unsupported(self.platform))
    }

    open spec fn read_outcome(
        &self,
        service: Seq<char>,
        account: Seq<char>,
        outcome: Result<Vec<u8>, KeychainFault>,
    ) -> bool {
        outcome == Err::<Vec<u8>, KeychainFault>(KeychainFault::Unsupported(self.platform))
    }

    fn set_generic_password(&mut self, service: &str, account: &str, label: &str, secret: &[u8]) -> (result:
        Result<(), KeychainFault>) {
        Err(KeychainFault::Unsupported(self.platform))
    }

    fn delete_generic_password(&mut self, service: &str, account: &str) -> (result: Result<
        (),
        KeychainFault,
    >) {
        Err(KeychainFault::Unsupported(self.platform))
    }

    fn find_generic_passwords(&self, label: &str, service: Option<&str>, attribute: &str) -> (result:
        Result<Vec<String>, KeychainFault>) {
        Err(KeychainFault::Unsupported(self.platform))
    }

    fn generic_password(&self, service: &str, account: &str) -> (result: Result<
        Vec<u8>,
        KeychainFault,
    >) {
        Err(KeychainFault::Unsupported(self.platform))
    }
}

/// The error is one that the keychain itself caused.
pub open spec fn is_keychain_error(e: SecretStoreError) -> bool {
    e is BackendFailure || e is UnsupportedPlatform
}

/// The store error that a keychain failure becomes.
pub open spec fn fault_becomes(f: KeychainFault, e: SecretStoreError) -> bool {
    match f {
        KeychainFault::Status { code, message } => e matches SecretStoreError::BackendFailure {
            code: c,
            message: m,
        } && c == code && m == message,
        KeychainFault::Unsupported(p) => e == SecretStoreError::UnsupportedPlatform(p),
    }
}

/// Maps a keychain failure onto the store's error.
pub fn map_keychain_fault(fault: KeychainFault) -> (error: SecretStoreError)
    ensures
        fault_becomes(fault, error),
{
    match fault {
        KeychainFault::Status { code, message } => SecretStoreError::BackendFailure { code, message },
        KeychainFault::Unsupported(platform) => SecretStoreError::UnsupportedPlatform(platform),
    }
}

/// What the store makes of the answer to a keychain search.
pub open spec fn search_answer(
    outcome: Result<Vec<String>, KeychainFault>,
    result: Result<Vec<String>, SecretStoreError>,
) -> bool {
    match outcome {
        Ok(found) => result == Ok::<Vec<String>, SecretStoreError>(found),
        Err(KeychainFault::Status { code, message }) => if code == ERR_SEC_ITEM_NOT_FOUND {
            result matches Ok(v) && v@.len() == 0
        } else {
            result matches Err(e) && fault_becomes(KeychainFault::Status { code, message }, e)
        },
        Err(f) => result matches Err(e) && fault_becomes(f, e),
    }
}

/// The namespaces listed for the answer to a search for the services of this
/// tool's items: sorted, each once, exactly those the services name.
pub open spec fn listing_answer(
    outcome: Result<Vec<String>, KeychainFault>,
    result: Result<Vec<String>, SecretStoreError>,
) -> bool {
    match outcome {
        Ok(services) => result matches Ok(namespaces) && strictly_ascending(
            string_views(namespaces@),
        ) && forall|n: Seq<char>|
            #[trigger] string_views(namespaces@).contains(n)
                <==> crate::keychain_items::names_namespace(string_views(services@), n),
        Err(KeychainFault::Status { code, message }) => if code == ERR_SEC_ITEM_NOT_FOUND {
            result matches Ok(v) && v@.len() == 0
        } else {
            result matches Err(e) && fault_becomes(KeychainFault::Status { code, message }, e)
        },
        Err(f) => result matches Err(e) && fault_becomes(f, e),
    }
}

/// The secrets loaded for the answer to a search for the accounts of the items of
/// `service`: what reading the item of each account found gives.
pub open spec fn loading_answer<K: Keychain>(
    keychain: K,
    service: Seq<char>,
    outcome: Result<Vec<String>, KeychainFault>,
    result: Result<Vec<(String, Vec<u8>)>, SecretStoreError>,
) -> bool {
    match outcome {
        Ok(accounts) => collected(keychain, service, accounts@, result),
        Err(KeychainFault::Status { code, message }) => if code == ERR_SEC_ITEM_NOT_FOUND {
            result matches Ok(v) && v@.len() == 0
        } else {
            result matches Err(e) && fault_becomes(KeychainFault::Status { code, message }, e)
        },
        Err(f) => result matches Err(e) && fault_becomes(f, e),
    }
}

/// The answer to a keychain search: what was found, nothing when the keychain
/// reports that no item matched, and the mapped failure otherwise.
pub fn search_result(outcome: Result<Vec<String>, KeychainFault>) -> (result: Result<
    Vec<String>,
    SecretStoreError,
>)
    ensures
        search_answer(outcome, result),
{
    match outcome {
        Ok(found) => Ok(found),
        Err(KeychainFault::Status { code, message }) => {
            if code == ERR_SEC_ITEM_NOT_FOUND {
                Ok(Vec::new())
            } else {
                Err(SecretStoreError::BackendFailure { code, message })
            }
        },
        Err(fault) => Err(map_keychain_fault(fault)),
    }
}

/// The namespaces named by the answer to a search for this tool's items.
pub fn namespaces_from_search(outcome: Result<Vec<String>, KeychainFault>) -> (result: Result<
    Vec<String>,
    SecretStoreError,
>)
    ensures
        listing_answer(outcome, result),
{
    match search_result(outcome) {
        Ok(services) => {
            let namespaces = collect_namespaces(services);
            proof {
                if namespaces@.len() > 0 {
                    assert(string_views(namespaces@).contains(string_views(namespaces@)[0]));
                }
            }
            Ok(namespaces)
        },
        Err(error) => Err(error),
    }
}

/// The pairs are named by the accounts, one each, in order.
pub open spec fn pairs_named(pairs: Seq<(String, Vec<u8>)>, accounts: Seq<String>) -> bool {
    pairs.len() == accounts.len() && forall|i: int|
        0 <= i < pairs.len() ==> #[trigger] pairs[i].0@ == accounts[i]@
}

/// What reading the item of every account of `service`, in order, gives: each
/// account with the secret the keychain read for it, or the failure of one read.
pub open spec fn collected<K: Keychain>(
    keychain: K,
    service: Seq<char>,
    accounts: Seq<String>,
    result: Result<Vec<(String, Vec<u8>)>, SecretStoreError>,
) -> bool {
    match result {
        Ok(pairs) => pairs_named(pairs@, accounts) && forall|i: int|
            0 <= i < pairs@.len() ==> #[trigger] keychain.read_outcome(
                service,
                accounts[i]@,
                Ok::<Vec<u8>, KeychainFault>(pairs@[i].1),
            ),
        Err(e) => exists|i: int, f: KeychainFault|
            0 <= i < accounts.len() && #[trigger] keychain.read_outcome(
                service,
                accounts[i]@,
                Err::<Vec<u8>, KeychainFault>(f),
            ) && fault_becomes(f, e) && reads_before_succeeded(keychain, service, accounts, i),
    }
}

/// The keychain read the item of `account` of `service` successfully.
pub open spec fn read_succeeded<K: Keychain>(keychain: K, service: Seq<char>, account: Seq<char>) -> bool {
    exists|secret: Vec<u8>|
        #[trigger] keychain.read_outcome(service, account, Ok::<Vec<u8>, KeychainFault>(secret))
}

/// Every account before the `i`-th was read successfully: the failure reported is
/// that of the first read that failed.
pub open spec fn reads_before_succeeded<K: Keychain>(
    keychain: K,
    service: Seq<char>,
    accounts: Seq<String>,
    i: int,
) -> bool {
    forall|j: int| 0 <= j < i ==> #[trigger] read_succeeded(keychain, service, accounts[j]@)
}

/// Each pair carries the secret of the item of `service` that its name is the
/// account of.
pub open spec fn reads_items(items: KeychainItems, service: Seq<char>, pairs: Seq<(String, Vec<u8>)>) -> bool {
    forall|i: int|
        #![trigger pairs[i]]
        0 <= i < pairs.len() ==> items.contains_key((service, pairs[i].0@)) && items[(
            service,
            pairs[i].0@,
        )].1 == pairs[i].1@
}

/// Reads the secret of every account of `service`, in order, stopping at the
/// first failure.
pub fn collect_secret<K: Keychain>(keychain: &K, accounts: Vec<String>, service: &str) -> (result:
    Result<Vec<(String, Vec<u8>)>, SecretStoreError>)
    ensures
        collected(*keychain, service@, accounts@, result),
        result matches Err(e) ==> is_keychain_error(e),
        accounts@.len() == 0 ==> result is Ok,
        keychain.keeps_items() && result is Ok ==> reads_items(
            keychain.items(),
            service@,
            result->Ok_0@,
        ),
{
    let mut pairs: Vec<(String, Vec<u8>)> = Vec::new();
    let mut i: usize = 0;
    while i < accounts.len()
        invariant
            0 <= i <= accounts@.len(),
            pairs@.len() == i,
            forall|j: int| 0 <= j < i ==> #[trigger] pairs@[j].0@ == accounts@[j]@,
            forall|j: int|
                0 <= j < i ==> #[trigger] keychain.read_outcome(
                    service@,
                    accounts@[j]@,
                    Ok::<Vec<u8>, KeychainFault>(pairs@[j].1),
                ),
            keychain.keeps_items() ==> reads_items(keychain.items(), service@, pairs@),
        decreases accounts@.len() - i,
    {
        let account = accounts[i].clone();
        let ghost before = pairs@;
        let read = keychain.generic_password(service, account.as_str());
        let ghost answer = read;
        match read {
            Ok(secret) => pairs.push((account, secret)),
            Err(fault) => {
                let ghost f = fault;
                let error = map_keychain_fault(fault);
                proof {
                    assert(keychain.read_outcome(
                        service@,
                        accounts@[i as int]@,
                        Err::<Vec<u8>, KeychainFault>(f),
                    ));
                    assert forall|j: int| 0 <= j < i implies #[trigger] read_succeeded(
                        *keychain,
                        service@,
                        accounts@[j]@,
                    ) by {
                        assert(keychain.read_outcome(
                            service@,
                            accounts@[j]@,
                            Ok::<Vec<u8>, KeychainFault>(pairs@[j].1),
                        ));
                    }
                    assert(reads_before_succeeded(*keychain, service@, accounts@, i as int));
                }
                return Err(error);
            },
        }
        proof {
            assert(pairs@ == before.push(pairs@[i as int]));
            assert(pairs@[i as int].0@ == accounts@[i as int]@);
            assert(answer == Ok::<Vec<u8>, KeychainFault>(pairs@[i as int].1));
            if keychain.keeps_items() {
                assert forall|j: int| 0 <= j < i + 1 implies #[trigger] keychain.items().contains_key(
                    (service@, pairs@[j].0@),
                ) && keychain.items()[(service@, pairs@[j].0@)].1 == pairs@[j].1@ by {
                    if j < i {
                        assert(pairs@[j] == before[j]);
                    }
                }
            }
            assert forall|j: int| 0 <= j < i + 1 implies #[trigger] pairs@[j].0@ == accounts@[j]@ by {
                if j < i {
                    assert(pairs@[j] == before[j]);
                }
            }
            assert forall|j: int| 0 <= j < i + 1 implies #[trigger] keychain.read_outcome(
                service@,
                accounts@[j]@,
                Ok::<Vec<u8>, KeychainFault>(pairs@[j].1),
            ) by {
                if j < i {
                    assert(pairs@[j] == before[j]);
                }
            }
        }
        i += 1;
    }
    Ok(pairs)
}

/// What the store makes of the keychain's answer to the delete of the secret of
/// `env` in `namespace`.
pub open spec fn delete_answer(
    namespace: Seq<char>,
    env: Seq<char>,
    outcome: Result<(), KeychainFault>,
    result: Result<(), SecretStoreError>,
) -> bool {
    match outcome {
        Ok(()) => result is Ok,
        Err(KeychainFault::Status { code, message }) => result matches Err(e)
            && crate::keychain_items::delete_error_is(namespace, env, code, message, e),
        Err(KeychainFault::Unsupported(p)) => result == Err::<(), SecretStoreError>(
            SecretStoreError::UnsupportedPlatform(p),
        ),
    }
}

/// What the store makes of the keychain's answer to a save.
pub open spec fn save_answer(outcome: Result<(), KeychainFault>, result: Result<(), SecretStoreError>) -> bool {
    match outcome {
        Ok(()) => result is Ok,
        Err(f) => result matches Err(e) && fault_becomes(f, e),
    }
}

/// The result of a delete, given what the keychain answered: a keychain status is
/// reported as [`map_delete_secret_error`] says.
pub fn delete_result(namespace: &str, env: &str, outcome: Result<(), KeychainFault>) -> (result:
    Result<(), SecretStoreError>)
    ensures
        delete_answer(namespace@, env@, outcome, result),
{
    match outcome {
        Ok(()) => Ok(()),
        Err(KeychainFault::Status { code, message }) => Err(
            map_delete_secret_error(namespace, env, code, message),
        ),
        Err(KeychainFault::Unsupported(platform)) => Err(
            SecretStoreError::UnsupportedPlatform(platform),
        ),
    }
}

/// The text that describes a store error (for every error but [`SecretStoreError::Io`],
/// whose text is that of the underlying I/O error).
pub open spec fn store_error_text(e: SecretStoreError) -> Seq<char> {
    match e {
        SecretStoreError::BackendFailure { code, message } => "keychain operation failed with OSStatus "@
            + int_decimal(code as int) + ": "@ + match message {
            Some(m) => m@,
            None => "no message"@,
        },
        SecretStoreError::NamespaceNotFound { namespace } => "namespace '"@ + namespace@
            + "' does not exist"@,
        SecretStoreError::SecretNotFound { namespace, env } => "secret '"@ + namespace@ + "."@
            + env@ + "' does not exist"@,
        SecretStoreError::UnsupportedPlatform(platform) => "macOS Keychain backend is unsupported on "@
            + platform@,
        SecretStoreError::Io(_) => Seq::empty(),
    }
}

impl SecretStoreError {
    /// The text that describes the error.
    pub fn to_string(&self) -> (text: String)
        ensures
            !(*self is Io) ==> text@ == store_error_text(*self),
    {
        match self {
            SecretStoreError::BackendFailure { code, message } => {
                let mut text = "keychain operation failed with OSStatus ".to_owned();
                push_i32_decimal(&mut text, *code);
                text.append(": ");
                match message {
                    Some(m) => text.append(m.as_str()),
                    None => text.append("no message"),
                }
                text
            },
            SecretStoreError::NamespaceNotFound { namespace } => {
                let mut text = "namespace '".to_owned();
                text.append(namespace.as_str());
                text.append("' does not exist");
                text
            },
            SecretStoreError::SecretNotFound { namespace, env } => {
                let mut text = "secret '".to_owned();
                text.append(namespace.as_str());
                text.append(".");
                text.append(env.as_str());
                text.append("' does not exist");
                text
            },
            SecretStoreError::UnsupportedPlatform(platform) => {
                let mut text = "macOS Keychain backend is unsupported on ".to_owned();
                text.append(platform);
                text
            },
            SecretStoreError::Io(error) => io_error_message(error),
        }
    }
}

impl From<std::io::Error> for SecretStoreError {
    fn from(error: std::io::Error) -> (e: Self) {
        SecretStoreError::Io(error)
    }
}

impl vstd::std_specs::convert::FromSpecImpl<std::io::Error> for SecretStoreError {
    open spec fn obeys_from_spec() -> bool {
        true
    }

    open spec fn from_spec(v: std::io::Error) -> Self {
        SecretStoreError::Io(v)
    }
}

/// The store's result for saving `secret` as `env` in `namespace`: what it makes
/// of the keychain's answer to storing the secret under the namespace's service
/// name, account `env` and the tool's label.
pub open spec fn store_saves<K: Keychain>(
    keychain: K,
    namespace: Seq<char>,
    env: Seq<char>,
    secret: Seq<u8>,
    result: Result<(), SecretStoreError>,
) -> bool {
    exists|outcome: Result<(), KeychainFault>|
        #[trigger] keychain.set_outcome(
            spec_service_name(namespace),
            env,
            KEYCHAIN_ITEM_LABEL@,
            secret,
            outcome,
        ) && save_answer(outcome, result)
}

/// The store's result for deleting `env` from `namespace`: what it makes of the
/// keychain's answer to deleting the item of the namespace's service name and
/// account `env`.
pub open spec fn store_deletes<K: Keychain>(
    keychain: K,
    namespace: Seq<char>,
    env: Seq<char>,
    result: Result<(), SecretStoreError>,
) -> bool {
    exists|outcome: Result<(), KeychainFault>|
        #[trigger] keychain.delete_outcome(spec_service_name(namespace), env, outcome)
            && delete_answer(namespace, env, outcome, result)
}

/// The store's listing: the namespaces named by the keychain's answer to a search
/// for the service names of the items with the tool's label.
pub open spec fn store_lists<K: Keychain>(keychain: K, result: Result<Vec<String>, SecretStoreError>) -> bool {
    exists|outcome: Result<Vec<String>, KeychainFault>|
        #[trigger] keychain.find_outcome(KEYCHAIN_ITEM_LABEL@, None, SERVICE_ATTRIBUTE@, outcome)
            && listing_answer(outcome, result)
}

/// The store's secrets of `namespace`: the keychain is searched for the accounts
/// of the items with the namespace's service name and the tool's label, and the
/// item of each account found is read.
pub open spec fn store_loads<K: Keychain>(
    keychain: K,
    namespace: Seq<char>,
    result: Result<Vec<(String, Vec<u8>)>, SecretStoreError>,
) -> bool {
    exists|outcome: Result<Vec<String>, KeychainFault>|
        #[trigger] keychain.find_outcome(
            KEYCHAIN_ITEM_LABEL@,
            Some(spec_service_name(namespace)),
            ACCOUNT_ATTRIBUTE@,
            outcome,
        ) && loading_answer(keychain, spec_service_name(namespace), outcome, result)
}

/// The items after `secret` is saved as `env` in `namespace`: the item of the
/// namespace's service name and account `env` holds the secret under the tool's
/// label, created or replaced; every other item is as it was.
pub open spec fn saved_items(
    items: KeychainItems,
    namespace: Seq<char>,
    env: Seq<char>,
    secret: Seq<u8>,
) -> KeychainItems {
    items.insert((spec_service_name(namespace), env), (KEYCHAIN_ITEM_LABEL@, secret))
}

/// The items after the secret of `env` is deleted from `namespace`: all but the
/// item of the namespace's service name and account `env`.
pub open spec fn deleted_items(items: KeychainItems, namespace: Seq<char>, env: Seq<char>) -> KeychainItems {
    items.remove((spec_service_name(namespace), env))
}

/// The pairs are the items of `service` with the tool's label: each such item's
/// account names one pair, which carries the item's secret.
pub open spec fn holds_items(items: KeychainItems, service: Seq<char>, pairs: Seq<(String, Vec<u8>)>) -> bool {
    &&& forall|i: int|
        #![trigger pairs[i]]
        0 <= i < pairs.len() ==> items.contains_key((service, pairs[i].0@)) && items[(
            service,
            pairs[i].0@,
        )] == (KEYCHAIN_ITEM_LABEL@, pairs[i].1@)
    &&& forall|account: Seq<char>|
        #![trigger items.contains_key((service, account))]
        items.contains_key((service, account)) && items[(service, account)].0 == KEYCHAIN_ITEM_LABEL@
            ==> exists|i: int| 0 <= i < pairs.len() && #[trigger] pairs[i].0@ == account
    &&& forall|i: int, j: int|
        #![trigger pairs[i], pairs[j]]
        0 <= i < j < pairs.len() ==> pairs[i].0@ != pairs[j].0@
}

/// What a load makes of a search answer of a keychain that keeps its items: the
/// pairs read for the accounts found are the items of the service.
proof fn lemma_loaded_pairs_hold_items<K: Keychain>(
    keychain: K,
    service: Seq<char>,
    outcome: Result<Vec<String>, KeychainFault>,
    pairs: Seq<(String, Vec<u8>)>,
)
    requires
        keychain.keeps_items(),
        search_reports(keychain.items(), KEYCHAIN_ITEM_LABEL@, Some(service), ACCOUNT_ATTRIBUTE@, outcome),
        match outcome {
            Ok(accounts) => pairs_named(pairs, accounts@) && reads_items(keychain.items(), service, pairs),
            Err(_) => pairs.len() == 0,
        },
        outcome is Err ==> (outcome->Err_0 matches KeychainFault::Status { code, .. } && code
            == ERR_SEC_ITEM_NOT_FOUND),
    ensures
        holds_items(keychain.items(), service, pairs),
{
    reveal_strlit("svce");
    reveal_strlit("acct");
    let items = keychain.items();
    let label = KEYCHAIN_ITEM_LABEL@;
    assert(SERVICE_ATTRIBUTE@ != ACCOUNT_ATTRIBUTE@) by {
        assert(SERVICE_ATTRIBUTE@[0] != ACCOUNT_ATTRIBUTE@[0]);
    }
    match outcome {
        Ok(accounts) => {
            assert forall|i: int| #![trigger pairs[i]] 0 <= i < pairs.len() implies items.contains_key(
                (service, pairs[i].0@),
            ) && items[(service, pairs[i].0@)] == (label, pairs[i].1@) by {
                assert(pairs[i].0@ == accounts@[i]@);
                let key = choose|key: (Seq<char>, Seq<char>)|
                    #[trigger] item_matches(items, key, label, Some(service)) && attribute_value(
                        key,
                        ACCOUNT_ATTRIBUTE@,
                    ) == Some(accounts@[i]@);
                assert(key == (service, pairs[i].0@));
            }
            assert forall|account: Seq<char>|
                #![trigger items.contains_key((service, account))]
                items.contains_key((service, account)) && items[(service, account)].0 == label implies exists|
                i: int,
            | 0 <= i < pairs.len() && #[trigger] pairs[i].0@ == account by {
                assert(item_matches(items, (service, account), label, Some(service)));
                assert(string_views(accounts@).contains(account));
                let k = choose|k: int| 0 <= k < accounts@.len() && string_views(accounts@)[k] == account;
                assert(pairs[k].0@ == account);
            }
            assert forall|i: int, j: int|
                #![trigger pairs[i], pairs[j]]
                0 <= i < j < pairs.len() implies pairs[i].0@ != pairs[j].0@ by {
                assert(string_views(accounts@)[i] == pairs[i].0@);
                assert(string_views(accounts@)[j] == pairs[j].0@);
            }
        },
        Err(_) => {
            assert forall|account: Seq<char>|
                #![trigger items.contains_key((service, account))]
                items.contains_key((service, account)) && items[(service, account)].0 == label implies exists|
                i: int,
            | 0 <= i < pairs.len() && #[trigger] pairs[i].0@ == account by {
                assert(item_matches(items, (service, account), label, Some(service)));
            }
        },
    }
}

/// A saved secret is loaded back. On a keychain that keeps its items, once saving
/// `secret` as `env` in `namespace` has succeeded, a load of the namespace that
/// succeeds holds exactly one pair named `env`, and it carries `secret`.
pub proof fn lemma_saved_secret_is_loaded<K: Keychain>(
    before: K,
    after: K,
    namespace: Seq<char>,
    env: Seq<char>,
    secret: Seq<u8>,
    pairs: Seq<(String, Vec<u8>)>,
)
    requires
        before.keeps_items(),
        after.keeps_items(),
        after.items() == saved_items(before.items(), namespace, env, secret),
        holds_items(after.items(), spec_service_name(namespace), pairs),
    ensures
        exists|i: int|
            0 <= i < pairs.len() && #[trigger] pairs[i].0@ == env && pairs[i].1@ == secret && forall|
                j: int,
            | 0 <= j < pairs.len() && #[trigger] pairs[j].0@ == env ==> j == i,
{
    let service = spec_service_name(namespace);
    let items = after.items();
    assert(items.contains_key((service, env)));
    let i = choose|i: int| 0 <= i < pairs.len() && #[trigger] pairs[i].0@ == env;
    assert(items[(service, pairs[i].0@)] == (KEYCHAIN_ITEM_LABEL@, pairs[i].1@));
    assert forall|j: int| 0 <= j < pairs.len() && #[trigger] pairs[j].0@ == env implies j == i by {
        if j < i {
            assert(pairs[j].0@ != pairs[i].0@);
        } else if i < j {
            assert(pairs[i].0@ != pairs[j].0@);
        }
    }
}

/// A deleted secret is no longer loaded. On a keychain that keeps its items, once
/// deleting `env` from `namespace` has succeeded, a load of the namespace that
/// succeeds holds no pair named `env`.
pub proof fn lemma_deleted_secret_is_not_loaded<K: Keychain>(
    before: K,
    after: K,
    namespace: Seq<char>,
    env: Seq<char>,
    pairs: Seq<(String, Vec<u8>)>,
)
    requires
        before.keeps_items(),
        after.keeps_items(),
        after.items() == deleted_items(before.items(), namespace, env),
        holds_items(after.items(), spec_service_name(namespace), pairs),
    ensures
        forall|i: int| 0 <= i < pairs.len() ==> #[trigger] pairs[i].0@ != env,
{
}

/// The namespaces are those that the items with the tool's label are saved under.
pub open spec fn lists_items(items: KeychainItems, namespaces: Seq<String>) -> bool {
    forall|n: Seq<char>|
        #[trigger] string_views(namespaces).contains(n) <==> exists|key: (Seq<char>, Seq<char>)|
            #[trigger] item_matches(items, key, KEYCHAIN_ITEM_LABEL@, None) && spec_namespace_of(key.0)
                == Some(n)
}

/// What a listing makes of a search answer of a keychain that keeps its items:
/// the namespaces listed are those of the items with the tool's label.
proof fn lemma_listed_namespaces_are_items<K: Keychain>(
    keychain: K,
    outcome: Result<Vec<String>, KeychainFault>,
    result: Result<Vec<String>, SecretStoreError>,
)
    requires
        keychain.keeps_items(),
        search_reports(keychain.items(), KEYCHAIN_ITEM_LABEL@, None, SERVICE_ATTRIBUTE@, outcome),
        listing_answer(outcome, result),
        result is Ok,
    ensures
        lists_items(keychain.items(), result->Ok_0@),
{
    let items = keychain.items();
    let label = KEYCHAIN_ITEM_LABEL@;
    let namespaces = result->Ok_0@;
    match outcome {
        Ok(services) => {
            assert forall|n: Seq<char>|
                #[trigger] string_views(namespaces).contains(n) implies exists|key: (Seq<char>, Seq<char>)|
                #[trigger] item_matches(items, key, label, None) && spec_namespace_of(key.0) == Some(n) by {
                let k = choose|k: int|
                    0 <= k < string_views(services@).len() && #[trigger] spec_namespace_of(
                        string_views(services@)[k],
                    ) == Some(n);
                assert(string_views(services@)[k] == services@[k]@);
                let key = choose|key: (Seq<char>, Seq<char>)|
                    #[trigger] item_matches(items, key, label, None) && attribute_value(
                        key,
                        SERVICE_ATTRIBUTE@,
                    ) == Some(services@[k]@);
                assert(item_matches(items, key, label, None) && spec_namespace_of(key.0) == Some(n));
            }
            assert forall|n: Seq<char>|
                (exists|key: (Seq<char>, Seq<char>)|
                    #[trigger] item_matches(items, key, label, None) && spec_namespace_of(key.0) == Some(
                        n,
                    )) implies #[trigger] string_views(namespaces).contains(n) by {
                let key = choose|key: (Seq<char>, Seq<char>)|
                    #[trigger] item_matches(items, key, label, None) && spec_namespace_of(key.0) == Some(n);
                assert(attribute_value(key, SERVICE_ATTRIBUTE@) == Some(key.0));
                assert(string_views(services@).contains(key.0));
                let k = choose|k: int|
                    0 <= k < string_views(services@).len() && string_views(services@)[k] == key.0;
                assert(spec_namespace_of(string_views(services@)[k]) == Some(n));
                assert(crate::keychain_items::names_namespace(string_views(services@), n));
            }
        },
        Err(_) => {
            assert(namespaces.len() == 0);
            assert forall|n: Seq<char>|
                (exists|key: (Seq<char>, Seq<char>)|
                    #[trigger] item_matches(items, key, label, None) && spec_namespace_of(key.0) == Some(
                        n,
                    )) implies #[trigger] string_views(namespaces).contains(n) by {
                let key = choose|key: (Seq<char>, Seq<char>)|
                    #[trigger] item_matches(items, key, label, None) && spec_namespace_of(key.0) == Some(n);
            }
        },
    }
}

/// A namespace with a saved secret is listed. On a keychain that keeps its items,
/// once saving a secret in a namespace that is not empty has succeeded, a listing
/// that succeeds names that namespace.
pub proof fn lemma_namespace_with_saved_secret_is_listed<K: Keychain>(
    before: K,
    after: K,
    namespace: Seq<char>,
    env: Seq<char>,
    secret: Seq<u8>,
    namespaces: Seq<String>,
)
    requires
        before.keeps_items(),
        after.keeps_items(),
        after.items() == saved_items(before.items(), namespace, env, secret),
        lists_items(after.items(), namespaces),
        namespace.len() > 0,
    ensures
        string_views(namespaces).contains(namespace),
{
    let key = (spec_service_name(namespace), env);
    lemma_namespace_of_service_name(namespace);
    assert(item_matches(after.items(), key, KEYCHAIN_ITEM_LABEL@, None));
}

/// The store of secrets. Each operation goes through the keychain it is given.
#[derive(Debug, Clone, Copy)]
pub struct SecretStore;

impl Default for SecretStore {
    fn default() -> (store: Self)
        ensures
            store == SecretStore,
    {
        SecretStore
    }
}

impl SecretStore {
    pub fn new() -> (store: Self)
        ensures
            store == SecretStore,
    {
        SecretStore
    }

    /// Creates or updates the secret of `env` in `namespace`.
    pub fn save_secret<K: Keychain>(self, namespace: &str, env: &str, secret: &[u8], keychain: &mut K) -> (result:
        Result<(), SecretStoreError>)
        ensures
            store_saves(*old(keychain), namespace@, env@, secret@, result),
            result matches Err(e) ==> is_keychain_error(e),
            old(keychain).keeps_items() ==> final(keychain).keeps_items() && final(keychain).items() == (
            if result is Ok {
                saved_items(old(keychain).items(), namespace@, env@, secret@)
            } else {
                old(keychain).items()
            }),
    {
        let service = keychain_service_name(namespace);
        let outcome = keychain.set_generic_password(
            service.as_str(),
            env,
            KEYCHAIN_ITEM_LABEL,
            secret,
        );
        let ghost answer = outcome;
        let result = match outcome {
            Ok(()) => Ok(()),
            Err(fault) => Err(map_keychain_fault(fault)),
        };
        proof {
            reveal_strlit("divechain");
            assert(save_answer(answer, result));
            assert(old(keychain).set_outcome(
                spec_service_name(namespace@),
                env@,
                KEYCHAIN_ITEM_LABEL@,
                secret@,
                answer,
            ));
        }
        result
    }

    /// Deletes the secret of `env` in `namespace`; a secret that does not exist is
    /// reported as [`SecretStoreError::SecretNotFound`] for exactly that pair.
    pub fn delete_secret<K: Keychain>(self, namespace: &str, env: &str, keychain: &mut K) -> (result:
        Result<(), SecretStoreError>)
        ensures
            result matches Err(e) ==> is_keychain_error(e) || (e matches SecretStoreError::SecretNotFound {
                namespace: n,
                env: v,
            } && n@ == namespace@ && v@ == env@),
            store_deletes(*old(keychain), namespace@, env@, result),
            old(keychain).keeps_items() ==> final(keychain).keeps_items() && final(keychain).items() == (
            if result is Ok {
                deleted_items(old(keychain).items(), namespace@, env@)
            } else {
                old(keychain).items()
            }),
    {
        let service = keychain_service_name(namespace);
        let outcome = keychain.delete_generic_password(service.as_str(), env);
        let ghost answer = outcome;
        let result = delete_result(namespace, env, outcome);
        proof {
            assert(delete_answer(namespace@, env@, answer, result));
            assert(old(keychain).delete_outcome(spec_service_name(namespace@), env@, answer));
        }
        result
    }

    /// The namespaces that hold secrets: sorted, each once, none empty.
    pub fn list_namespaces<K: Keychain>(self, keychain: &K) -> (result: Result<
        Vec<String>,
        SecretStoreError,
    >)
        ensures
            store_lists(*keychain, result),
            result matches Ok(namespaces) ==> strictly_ascending(string_views(namespaces@))
                && forall|i: int| 0 <= i < namespaces@.len() ==> #[trigger] namespaces@[i]@.len() > 0,
            result matches Err(e) ==> is_keychain_error(e),
            keychain.keeps_items() && result is Ok ==> lists_items(keychain.items(), result->Ok_0@),
    {
        let outcome = keychain.find_generic_passwords(KEYCHAIN_ITEM_LABEL, None, SERVICE_ATTRIBUTE);
        let ghost answer = outcome;
        let result = namespaces_from_search(outcome);
        proof {
            if result is Ok {
                let namespaces = result->Ok_0;
                assert forall|i: int| 0 <= i < namespaces@.len() implies #[trigger] namespaces@[i]@.len()
                    > 0 by {
                    assert(string_views(namespaces@).contains(string_views(namespaces@)[i]));
                }
            }
            assert(listing_answer(answer, result));
            assert(keychain.find_outcome(KEYCHAIN_ITEM_LABEL@, None, SERVICE_ATTRIBUTE@, answer));
            if keychain.keeps_items() && result is Ok {
                lemma_listed_namespaces_are_items(*keychain, answer, result);
            }
        }
        result
    }

    /// Every environment variable name and secret stored in `namespace`; no pair at
    /// all when the namespace holds none.
    pub fn load_namespace_env<K: Keychain>(self, namespace: &str, keychain: &K) -> (result: Result<
        Vec<(String, Vec<u8>)>,
        SecretStoreError,
    >)
        ensures
            store_loads(*keychain, namespace@, result),
            result matches Err(e) ==> is_keychain_error(e),
            keychain.keeps_items() && result is Ok ==> holds_items(
                keychain.items(),
                spec_service_name(namespace@),
                result->Ok_0@,
            ),
    {
        let service = keychain_service_name(namespace);
        let outcome = keychain.find_generic_passwords(
            KEYCHAIN_ITEM_LABEL,
            Some(service.as_str()),
            ACCOUNT_ATTRIBUTE,
        );
        let ghost answer = outcome;
        let result = match search_result(outcome) {
            Ok(accounts) => collect_secret(keychain, accounts, service.as_str()),
            Err(error) => Err(error),
        };
        proof {
            assert(loading_answer(*keychain, spec_service_name(namespace@), answer, result));
            if keychain.keeps_items() && result is Ok {
                lemma_loaded_pairs_hold_items(
                    *keychain,
                    spec_service_name(namespace@),
                    answer,
                    result->Ok_0@,
                );
            }
            assert(keychain.find_outcome(
                KEYCHAIN_ITEM_LABEL@,
                Some(spec_service_name(namespace@)),
                ACCOUNT_ATTRIBUTE@,
                answer,
            ));
        }
        result
    }
}

/// The secrets to run a command with: what was loaded for `namespace`, where
/// loading nothing means that the namespace does not exist.
pub fn namespace_env_or_not_found(
    namespace: &str,
    loaded: Result<Vec<(String, Vec<u8>)>, SecretStoreError>,
) -> (result: Result<Vec<(String, Vec<u8>)>, SecretStoreError>)
    ensures
        match loaded {
            Ok(v) => if v@.len() == 0 {
                result matches Err(SecretStoreError::NamespaceNotFound { namespace: n })
                    && n@ == namespace@
            } else {
                result == Ok::<Vec<(String, Vec<u8>)>, SecretStoreError>(v)
            },
            Err(e) => result == Err::<Vec<(String, Vec<u8>)>, SecretStoreError>(e),
        },
{
    match loaded {
        Ok(secrets) => {
            if secrets.len() == 0 {
                Err(SecretStoreError::NamespaceNotFound { namespace: namespace.to_owned() })
            } else {
                Ok(secrets)
            }
        },
        Err(error) => Err(error),
    }
}

} // verus!
