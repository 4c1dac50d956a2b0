//! Properties of a whole exchange between the secret server and a client: what
//! the server sends for the secrets of a namespace is what the client obtains.

use vstd::prelude::*;

use crate::client::{pair_names, spec_flatten, spec_flatten_entries, SecretsOutcome};
use crate::protocol::{secrets_view, SecretResponse, WireResponse};
use crate::secret_store::SecretStoreError;
use crate::server::{
    all_valid_utf8, answers, decoded_entries, decoded_entry, error_code, reports,
    secrets_answer, ServerError,
};
use vstd::utf8::decode_utf8;

verus! {

/// The environment variable names and decoded secrets, in order.
pub open spec fn decoded_pairs(loaded: Seq<(String, Vec<u8>)>) -> Seq<(Seq<char>, Seq<char>)> {
    loaded.map_values(|p: (String, Vec<u8>)| (p.0@, decode_utf8(p.1@)))
}

/// No environment variable name occurs twice.
pub open spec fn distinct_names(loaded: Seq<(String, Vec<u8>)>) -> bool {
    forall|i: int, j: int| 0 <= i < j < loaded.len() ==> #[trigger] loaded[i].0@ != #[trigger] loaded[j].0@
}

proof fn lemma_flatten_decoded(loaded: Seq<(String, Vec<u8>)>)
    requires
        distinct_names(loaded),
    ensures
        spec_flatten_entries(decoded_entries(loaded)) == SecretsOutcome::Secrets(
            decoded_pairs(loaded),
        ),
    decreases loaded.len(),
{
    if loaded.len() > 0 {
        let prefix = loaded.drop_last();
        assert(decoded_entries(loaded).drop_last() =~= decoded_entries(prefix));
        assert(distinct_names(prefix));
        lemma_flatten_decoded(prefix);
        let last = loaded.last();
        let entry = decoded_entries(loaded).last();
        assert(entry == decoded_entry(last.0@, last.1@));
        let earlier = decoded_pairs(prefix);
        if pair_names(earlier).contains(entry[0].0) {
            let k = choose|k: int| 0 <= k < pair_names(earlier).len() && pair_names(earlier)[k]
                == entry[0].0;
            assert(loaded[k].0@ == loaded[loaded.len() - 1].0@);
        }
        assert(earlier.push(entry[0]) =~= decoded_pairs(loaded));
    } else {
        assert(decoded_entries(loaded) =~= Seq::<Seq<(Seq<char>, Seq<char>)>>::empty());
        assert(decoded_pairs(loaded) =~= Seq::<(Seq<char>, Seq<char>)>::empty());
    }
}

/// When a namespace holds secrets that are all UTF-8 text under distinct names,
/// the server answers with them and the client obtains exactly those names and
/// secrets, in the order they were loaded.
pub proof fn lemma_served_secrets_reach_client(
    namespace: Seq<char>,
    loaded: Vec<(String, Vec<u8>)>,
    response: WireResponse,
)
    requires
        answers(namespace, Ok(loaded), response),
        loaded@.len() > 0,
        all_valid_utf8(loaded@),
        distinct_names(loaded@),
    ensures
        response matches WireResponse::Success(r) && spec_flatten(secrets_view(r))
            == SecretsOutcome::Secrets(decoded_pairs(loaded@)),
{
    let result = choose|result: Result<SecretResponse, ServerError>|
        #[trigger] secrets_answer(namespace, Ok(loaded), result) && match result {
            Ok(r) => response == WireResponse::Success(r),
            Err(e) => reports(response, e),
        };
    let r = result->Ok_0;
    lemma_flatten_decoded(loaded@);
}

/// When a namespace holds no secret, the server answers `namespace_not_found`
/// with the message that names the namespace, and that message is what the
/// client reports.
pub proof fn lemma_unknown_namespace_reported(
    namespace: Seq<char>,
    loaded: Vec<(String, Vec<u8>)>,
    response: WireResponse,
)
    requires
        answers(namespace, Ok(loaded), response),
        loaded@.len() == 0,
    ensures
        response matches WireResponse::Error(r) && r.error.code@ == "namespace_not_found"@
            && r.error.message@ == "namespace '"@ + namespace + "' does not exist"@,
{
    let result = choose|result: Result<SecretResponse, ServerError>|
        #[trigger] secrets_answer(namespace, Ok(loaded), result) && match result {
            Ok(r) => response == WireResponse::Success(r),
            Err(e) => reports(response, e),
        };
    let e = result->Err_0;
    assert(error_code(e) == "namespace_not_found"@);
}

/// Whatever the server loads, a successful answer carries at least one entry and
/// every entry holds exactly one environment variable: the server never sends
/// what a client rejects as malformed or empty.
pub proof fn lemma_served_entries_are_single(
    namespace: Seq<char>,
    loaded: Result<Vec<(String, Vec<u8>)>, SecretStoreError>,
    response: WireResponse,
)
    requires
        answers(namespace, loaded, response),
    ensures
        response matches WireResponse::Success(r) ==> secrets_view(r).len() > 0 && forall|i: int|
            0 <= i < secrets_view(r).len() ==> #[trigger] secrets_view(r)[i].len() == 1,
{
    let result = choose|result: Result<SecretResponse, ServerError>|
        #[trigger] secrets_answer(namespace, loaded, result) && match result {
            Ok(r) => response == WireResponse::Success(r),
            Err(e) => reports(response, e),
        };
    if response is Success {
        assert(result is Ok);
    }
}

} // verus!
