//! Naming of the keychain items that hold secrets, and the mapping of keychain
//! results onto the library's own error type.

use vstd::prelude::*;

use crate::secret_store::SecretStoreError;
use crate::std_items::sort_strings;
use crate::text::{
    ascending, chars_le, chars_lt, lemma_chars_le_antisymmetric, lemma_chars_le_common_prefix,
    strictly_ascending, string_views, strip_prefix,
};

verus! {

/// Every keychain service name that belongs to this tool starts with this prefix,
/// followed by the namespace.
pub const KEYCHAIN_SERVICE_PREFIX: &'static str = "divechain-";

/// The label given to every keychain item that this tool saves.
pub const KEYCHAIN_ITEM_LABEL: &'static str = "divechain";

/// The status code with which the keychain reports that no item matched.
pub const ERR_SEC_ITEM_NOT_FOUND: i32 = -25300;

/// The keychain attribute that holds an item's service name.
pub const SERVICE_ATTRIBUTE: &'static str = "svce";

/// The keychain attribute that holds an item's account name.
pub const ACCOUNT_ATTRIBUTE: &'static str = "acct";

/// The characters of [`KEYCHAIN_SERVICE_PREFIX`].
pub open spec fn service_prefix() -> Seq<char> {
    seq!['d', 'i', 'v', 'e', 'c', 'h', 'a', 'i', 'n', '-']
}

/// The service name under which the secrets of `namespace` are stored.
pub open spec fn spec_service_name(namespace: Seq<char>) -> Seq<char> {
    service_prefix() + namespace
}

/// The namespace encoded in a service name: what follows the prefix, when the
/// service starts with the prefix and something follows it.
pub open spec fn spec_namespace_of(service: Seq<char>) -> Option<Seq<char>> {
    if service.len() > service_prefix().len() && service.take(service_prefix().len() as int)
        == service_prefix() {
        Some(service.skip(service_prefix().len() as int))
    } else {
        None
    }
}

/// Builds the keychain service name of a namespace.
pub fn keychain_service_name(namespace: &str) -> (service: String)
    ensures
        service@ == spec_service_name(namespace@),
{
    proof {
        reveal_strlit("divechain-");
        assert(KEYCHAIN_SERVICE_PREFIX@ =~= service_prefix());
    }
    let mut service = KEYCHAIN_SERVICE_PREFIX.to_owned();
    service.append(namespace);
    service
}

/// Extracts the namespace from a service name; `None` for names that do not
/// belong to this tool or that name an empty namespace.
pub fn namespace_from_service(service: &str) -> (namespace: Option<&str>)
    ensures
        namespace matches Some(n) ==> spec_namespace_of(service@) == Some(n@),
        namespace is None ==> spec_namespace_of(service@) is None,
{
    proof {
        reveal_strlit("divechain-");
        assert(KEYCHAIN_SERVICE_PREFIX@ =~= service_prefix());
    }
    match strip_prefix(service, KEYCHAIN_SERVICE_PREFIX) {
        Some(rest) => {
            if rest.is_empty() {
                None
            } else {
                Some(rest)
            }
        },
        None => None,
    }
}

/// `n` is the namespace of one of `services`.
pub open spec fn names_namespace(services: Seq<Seq<char>>, n: Seq<char>) -> bool {
    exists|k: int| 0 <= k < services.len() && #[trigger] spec_namespace_of(services[k]) == Some(n)
}

/// A service that names a namespace is the prefix followed by that namespace.
pub proof fn lemma_service_of_namespace(service: Seq<char>)
    requires
        spec_namespace_of(service) is Some,
    ensures
        service == spec_service_name(spec_namespace_of(service).unwrap()),
{
    assert(service =~= service.take(service_prefix().len() as int) + service.skip(
        service_prefix().len() as int,
    ));
}

/// Extracting the namespace from a service name undoes building the service name.
pub proof fn lemma_namespace_of_service_name(namespace: Seq<char>)
    requires
        namespace.len() > 0,
    ensures
        spec_namespace_of(spec_service_name(namespace)) == Some(namespace),
{
    let s = spec_service_name(namespace);
    assert(s.take(service_prefix().len() as int) =~= service_prefix());
    assert(s.skip(service_prefix().len() as int) =~= namespace);
}

/// A namespace saved under its service name is among the namespaces that the
/// services name, and so is listed by [`collect_namespaces`].
pub proof fn lemma_saved_namespace_is_listed(services: Seq<Seq<char>>, namespace: Seq<char>)
    requires
        namespace.len() > 0,
        services.contains(spec_service_name(namespace)),
    ensures
        names_namespace(services, namespace),
{
    lemma_namespace_of_service_name(namespace);
    let k = choose|k: int| 0 <= k < services.len() && services[k] == spec_service_name(namespace);
    assert(spec_namespace_of(services[k]) == Some(namespace));
}

/// Turns the service names found in the keychain into the namespaces they name:
/// sorted, without repetitions, and skipping names that do not belong to this tool.
pub fn collect_namespaces(services: Vec<String>) -> (namespaces: Vec<String>)
    ensures
        strictly_ascending(string_views(namespaces@)),
        forall|n: Seq<char>|
            #[trigger] string_views(namespaces@).contains(n) <==> names_namespace(
                string_views(services@),
                n,
            ),
{
    let ghost original = string_views(services@);
    let mut services = services;
    sort_strings(&mut services);
    let ghost sorted = string_views(services@);
    let mut namespaces: Vec<String> = Vec::new();
    let ghost mut last_k: int = -1;
    let mut i: usize = 0;
    while i < services.len()
        invariant
            0 <= i <= services.len(),
            sorted == string_views(services@),
            sorted.len() == services@.len(),
            ascending(sorted),
            strictly_ascending(string_views(namespaces@)),
            namespaces.len() > 0 ==> (0 <= last_k < i && spec_namespace_of(sorted[last_k])
                == Some(namespaces@.last()@)),
            forall|p: int|
                #![trigger namespaces@[p]]
                0 <= p < namespaces.len() ==> exists|k: int|
                    0 <= k < i && #[trigger] spec_namespace_of(sorted[k]) == Some(
                        namespaces@[p]@,
                    ),
            forall|k: int|
                0 <= k < i && #[trigger] spec_namespace_of(sorted[k]) is Some ==> string_views(
                    namespaces@,
                ).contains(spec_namespace_of(sorted[k]).unwrap()),
        decreases services.len() - i,
    {
        let fresh = i == 0 || !(services[i] == services[i - 1]);
        if fresh {
            match namespace_from_service(services[i].as_str()) {
                Some(ns) => {
                    let ghost prev = string_views(namespaces@);
                    proof {
                        if namespaces.len() > 0 {
                            let last = namespaces@.last()@;
                            lemma_namespace_follows(sorted, last_k, i as int, last, ns@);
                            assert forall|p: int| 0 <= p < prev.len() implies #[trigger] chars_lt(
                                prev[p],
                                ns@,
                            ) by {
                                if p < prev.len() - 1 {
                                    assert(chars_lt(prev[p], prev[prev.len() - 1]));
                                    crate::text::lemma_chars_lt_transitive(prev[p], last, ns@);
                                }
                            }
                        }
                    }
                    namespaces.push(ns.to_owned());
                    proof {
                        last_k = i as int;
                        let now = string_views(namespaces@);
                        assert(now =~= prev.push(ns@));
                        assert forall|a: int, b: int| 0 <= a < b < now.len() implies #[trigger] chars_lt(
                            now[a],
                            now[b],
                        ) by {
                            if b < prev.len() {
                                assert(chars_lt(prev[a], prev[b]));
                            }
                        }
                        assert forall|p: int| #![trigger namespaces@[p]] 0 <= p < namespaces.len() implies exists|k: int|
                            0 <= k < i + 1 && #[trigger] spec_namespace_of(sorted[k]) == Some(
                                namespaces@[p]@,
                            ) by {
                            if p < prev.len() {
                                assert(namespaces@[p]@ == prev[p]);
                            } else {
                                assert(spec_namespace_of(sorted[i as int]) == Some(namespaces@[p]@));
                            }
                        }
                        assert forall|k: int|
                            0 <= k < i + 1 && #[trigger] spec_namespace_of(sorted[k])
                                is Some implies now.contains(spec_namespace_of(sorted[k]).unwrap()) by {
                            if k < i {
                                assert(prev.contains(spec_namespace_of(sorted[k]).unwrap()));
                                let q = choose|q: int| 0 <= q < prev.len() && prev[q]
                                    == spec_namespace_of(sorted[k]).unwrap();
                                assert(now[q] == prev[q]);
                            } else {
                                assert(now[now.len() - 1] == ns@);
                            }
                        }
                    }
                },
                None => {},
            }
        } else {
            proof {
                assert(sorted[i as int] == sorted[i - 1]);
            }
        }
        i += 1;
    }
    proof {
        let result = string_views(namespaces@);
        broadcast use vstd::seq_lib::group_to_multiset_ensures;

        assert forall|n: Seq<char>| #[trigger] result.contains(n) implies names_namespace(original, n) by {
            let p = choose|p: int| 0 <= p < result.len() && result[p] == n;
            let k = choose|k: int| 0 <= k < sorted.len() && #[trigger] spec_namespace_of(sorted[k]) == Some(
                namespaces@[p]@,
            );
            assert(sorted.contains(sorted[k]));
            assert(original.to_multiset().count(sorted[k]) > 0);
            assert(original.contains(sorted[k]));
            let j = choose|j: int| 0 <= j < original.len() && original[j] == sorted[k];
            assert(spec_namespace_of(original[j]) == Some(n));
        }
        assert forall|n: Seq<char>| names_namespace(original, n) implies #[trigger] result.contains(n) by {
            let j = choose|j: int| 0 <= j < original.len() && #[trigger] spec_namespace_of(original[j]) == Some(n);
            assert(original.contains(original[j]));
            assert(sorted.to_multiset().count(original[j]) > 0);
            assert(sorted.contains(original[j]));
            let k = choose|k: int| 0 <= k < sorted.len() && sorted[k] == original[j];
            assert(spec_namespace_of(sorted[k]) is Some);
        }
    }
    namespaces
}

/// In an ascending list of services, a namespace taken from a later service that
/// differs from its predecessor comes strictly after a namespace from an earlier one.
proof fn lemma_namespace_follows(
    sorted: Seq<Seq<char>>,
    k: int,
    i: int,
    earlier: Seq<char>,
    later: Seq<char>,
)
    requires
        ascending(sorted),
        0 <= k < i < sorted.len(),
        sorted[i] != sorted[i - 1],
        spec_namespace_of(sorted[k]) == Some(earlier),
        spec_namespace_of(sorted[i]) == Some(later),
    ensures
        chars_lt(earlier, later),
{
    lemma_service_of_namespace(sorted[k]);
    lemma_service_of_namespace(sorted[i]);
    assert(chars_le(sorted[k], sorted[i]));
    if sorted[k] == sorted[i] {
        if k < i - 1 {
            assert(chars_le(sorted[k], sorted[i - 1]));
        } else {
            crate::text::lemma_chars_le_reflexive(sorted[k]);
        }
        assert(chars_le(sorted[i - 1], sorted[i]));
        lemma_chars_le_antisymmetric(sorted[i - 1], sorted[i]);
    }
    lemma_chars_le_common_prefix(service_prefix(), earlier, later);
}

/// The error that a failed delete of the secret of `env` in `namespace` becomes.
pub open spec fn delete_error_is(
    namespace: Seq<char>,
    env: Seq<char>,
    code: i32,
    message: Option<String>,
    e: SecretStoreError,
) -> bool {
    if code == ERR_SEC_ITEM_NOT_FOUND {
        e matches SecretStoreError::SecretNotFound { namespace: n, env: v } && n@ == namespace
            && v@ == env
    } else {
        e matches SecretStoreError::BackendFailure { code: c, message: m } && c == code && m
            == message
    }
}

/// Maps the status of a failed delete: the keychain's "no such item" becomes
/// [`SecretStoreError::SecretNotFound`]; every other status is kept as it is.
pub fn map_delete_secret_error(namespace: &str, env: &str, code: i32, message: Option<String>) -> (error:
    SecretStoreError)
    ensures
        delete_error_is(namespace@, env@, code, message, error),
{
    if code == ERR_SEC_ITEM_NOT_FOUND {
        SecretStoreError::SecretNotFound { namespace: namespace.to_owned(), env: env.to_owned() }
    } else {
        SecretStoreError::BackendFailure { code, message }
    }
}

} // verus!
