//! The client side of the secret server protocol: choosing the socket to reach
//! the server on, and checking the server's answer.

use vstd::prelude::*;

use crate::protocol::{entry_view, pairs_view, secrets_view, SecretResponse, WireResponse};

verus! {

/// The class of a client error, in the terms of `std::io::ErrorKind`.
#[derive(Debug, Clone, Copy, PartialEq, Eq)]
pub enum ClientErrorKind {
    InvalidInput,
    InvalidData,
    Other,
}

/// Why the secrets of a namespace could not be fetched from the server.
#[derive(Debug, PartialEq, Eq)]
pub enum ClientError {
    /// Neither a socket path argument nor a non-empty environment value was given.
    MissingSocketPath,
    /// The answer is not a well-formed response; holds the parser's description.
    MalformedPayload(String),
    /// The answer holds no secret at all.
    EmptySecrets,
    /// An entry of the answer does not hold exactly one environment variable.
    MalformedEntry,
    /// An environment variable appears in two entries.
    DuplicateEnv(String),
    /// The server answered with an error; holds its message.
    Server(String),
}

/// What a server answer holding these entries yields, before the check that
/// there is at least one entry.
pub enum SecretsOutcome {
    /// The environment variable names and values, in the order of the entries.
    Secrets(Seq<(Seq<char>, Seq<char>)>),
    EmptySecrets,
    MalformedEntry,
    DuplicateEnv(Seq<char>),
}

/// The names of a list of pairs.
pub open spec fn pair_names(pairs: Seq<(Seq<char>, Seq<char>)>) -> Seq<Seq<char>> {
    pairs.map_values(|p: (Seq<char>, Seq<char>)| p.0)
}

/// Reads the entries in order: each must hold exactly one pair, whose name no
/// earlier entry used.
pub open spec fn spec_flatten_entries(entries: Seq<Seq<(Seq<char>, Seq<char>)>>) -> SecretsOutcome
    decreases entries.len(),
{
    if entries.len() == 0 {
        SecretsOutcome::Secrets(seq![])
    } else {
        match spec_flatten_entries(entries.drop_last()) {
            SecretsOutcome::Secrets(pairs) => {
                let entry = entries.last();
                if entry.len() != 1 {
                    SecretsOutcome::MalformedEntry
                } else if pair_names(pairs).contains(entry[0].0) {
                    SecretsOutcome::DuplicateEnv(entry[0].0)
                } else {
                    SecretsOutcome::Secrets(pairs.push(entry[0]))
                }
            },
            other => other,
        }
    }
}

/// What a successful server answer holding these entries yields.
pub open spec fn spec_flatten(entries: Seq<Seq<(Seq<char>, Seq<char>)>>) -> SecretsOutcome {
    if entries.len() == 0 {
        SecretsOutcome::EmptySecrets
    } else {
        spec_flatten_entries(entries)
    }
}

/// The result of the client agrees with the outcome.
pub open spec fn result_is(outcome: SecretsOutcome, result: Result<Vec<(String, String)>, ClientError>) -> bool {
    match outcome {
        SecretsOutcome::Secrets(p) => result matches Ok(v) && pairs_view(v@) == p,
        SecretsOutcome::EmptySecrets => result matches Err(ClientError::EmptySecrets),
        SecretsOutcome::MalformedEntry => result matches Err(ClientError::MalformedEntry),
        SecretsOutcome::DuplicateEnv(name) => result matches Err(ClientError::DuplicateEnv(d))
            && d@ == name,
    }
}

/// Chooses the socket path: the argument when given, else the environment value
/// when it is given and not empty.
pub fn resolve_socket_path(argument: Option<Vec<u8>>, environment: Option<Vec<u8>>) -> (path: Result<
    Vec<u8>,
    ClientError,
>)
    ensures
        match argument {
            Some(a) => path matches Ok(p) && p@ == a@,
            None => match environment {
                Some(e) => if e@.len() > 0 {
                    path matches Ok(p) && p@ == e@
                } else {
                    path matches Err(ClientError::MissingSocketPath)
                },
                None => path matches Err(ClientError::MissingSocketPath),
            },
        },
{
    match argument {
        Some(a) => Ok(a),
        None => match environment {
            Some(e) => {
                if e.len() > 0 {
                    Ok(e)
                } else {
                    Err(ClientError::MissingSocketPath)
                }
            },
            None => Err(ClientError::MissingSocketPath),
        },
    }
}

/// Whether one of the pairs is named `name`.
fn has_name(pairs: &Vec<(String, String)>, name: &String) -> (found: bool)
    ensures
        found == pair_names(pairs_view(pairs@)).contains(name@),
{
    let mut j: usize = 0;
    while j < pairs.len()
        invariant
            0 <= j <= pairs@.len(),
            forall|k: int| 0 <= k < j ==> #[trigger] pairs@[k].0@ != name@,
        decreases pairs@.len() - j,
    {
        if pairs[j].0 == *name {
            proof {
                assert(pair_names(pairs_view(pairs@))[j as int] == name@);
            }
            return true;
        }
        j += 1;
    }
    proof {
        if pair_names(pairs_view(pairs@)).contains(name@) {
            let k = choose|k: int|
                0 <= k < pair_names(pairs_view(pairs@)).len() && pair_names(pairs_view(pairs@))[k]
                    == name@;
            assert(pairs@[k].0@ == name@);
        }
    }
    false
}

/// Checks a successful answer and turns its entries into the list of
/// environment variable names and values.
pub fn flatten_secrets(response: SecretResponse) -> (result: Result<Vec<(String, String)>, ClientError>)
    ensures
        result_is(spec_flatten(secrets_view(response)), result),
        checked_answer(secrets_view(response), result),
        result matches Ok(v) ==> names_distinct(pair_names(pairs_view(v@))) && v@.len()
            == response.secrets@.len(),
{
    let ghost all = secrets_view(response);
    let entries = response.secrets;
    assert(all.len() == entries@.len());
    if entries.len() == 0 {
        return Err(ClientError::EmptySecrets);
    }
    let mut secrets: Vec<(String, String)> = Vec::new();
    let mut i: usize = 0;
    proof {
        assert(all.take(0) =~= Seq::<Seq<(Seq<char>, Seq<char>)>>::empty());
        assert(pairs_view(secrets@) =~= Seq::<(Seq<char>, Seq<char>)>::empty());
    }
    while i < entries.len()
        invariant
            0 <= i <= entries@.len(),
            all == secrets_view(response),
            all.len() == entries@.len(),
            forall|k: int| 0 <= k < all.len() ==> #[trigger] all[k] == entry_view(entries@[k]),
            all.len() > 0,
            spec_flatten_entries(all.take(i as int)) == SecretsOutcome::Secrets(
                pairs_view(secrets@),
            ),
        decreases entries@.len() - i,
    {
        proof {
            assert(all.take(i + 1).drop_last() =~= all.take(i as int));
            assert(all.take(i + 1).last() == all[i as int]);
        }
        let entry = &entries[i];
        if entry.len() != 1 {
            proof {
                assert(all[i as int].len() == entry@.len());
                assert(spec_flatten_entries(all.take(i + 1)) == SecretsOutcome::MalformedEntry);
                lemma_flatten_stops(all, i as int + 1);
            }
            let result = Err(ClientError::MalformedEntry);
            proof {
                lemma_client_checks_answer(all, result);
            }
            return result;
        }
        let env = entry[0].0.clone();
        let secret = entry[0].1.clone();
        if has_name(&secrets, &env) {
            proof {
                assert(all[i as int].len() == entry@.len());
                assert(all[i as int][0].0 == env@);
                assert(spec_flatten_entries(all.take(i + 1)) == SecretsOutcome::DuplicateEnv(env@));
                lemma_flatten_stops(all, i as int + 1);
            }
            let result = Err(ClientError::DuplicateEnv(env));
            proof {
                lemma_client_checks_answer(all, result);
            }
            return result;
        }
        let ghost before = secrets@;
        secrets.push((env, secret));
        proof {
            assert(pairs_view(secrets@) =~= pairs_view(before).push(all[i as int][0]));
        }
        i += 1;
    }
    proof {
        assert(all.take(entries@.len() as int) =~= all);
        lemma_flattened_names_distinct(all);
        lemma_client_checks_answer(all, Ok(secrets));
    }
    Ok(secrets)
}

/// No name occurs twice.
pub open spec fn names_distinct(names: Seq<Seq<char>>) -> bool {
    forall|i: int, j: int| 0 <= i < j < names.len() ==> #[trigger] names[i] != #[trigger] names[j]
}

/// The client never obtains the same environment variable twice.
pub proof fn lemma_flattened_names_distinct(entries: Seq<Seq<(Seq<char>, Seq<char>)>>)
    ensures
        spec_flatten_entries(entries) matches SecretsOutcome::Secrets(pairs) ==> names_distinct(
            pair_names(pairs),
        ),
    decreases entries.len(),
{
    if entries.len() > 0 {
        lemma_flattened_names_distinct(entries.drop_last());
        if let SecretsOutcome::Secrets(pairs) = spec_flatten_entries(entries.drop_last()) {
            let entry = entries.last();
            if entry.len() == 1 && !pair_names(pairs).contains(entry[0].0) {
                let names = pair_names(pairs.push(entry[0]));
                assert(names =~= pair_names(pairs).push(entry[0].0));
                assert forall|i: int, j: int| 0 <= i < j < names.len() implies #[trigger] names[i]
                    != #[trigger] names[j] by {
                    if j == names.len() - 1 {
                        assert(pair_names(pairs)[i] == names[i]);
                    } else {
                        assert(pair_names(pairs)[i] == names[i]);
                        assert(pair_names(pairs)[j] == names[j]);
                    }
                }
            }
        }
    }
}

/// Every entry holds exactly one pair.
pub open spec fn single_entries(entries: Seq<Seq<(Seq<char>, Seq<char>)>>) -> bool {
    forall|i: int| 0 <= i < entries.len() ==> #[trigger] entries[i].len() == 1
}

/// The pair of each entry, in order.
pub open spec fn entry_pairs(entries: Seq<Seq<(Seq<char>, Seq<char>)>>) -> Seq<(Seq<char>, Seq<char>)> {
    entries.map_values(|e: Seq<(Seq<char>, Seq<char>)>| e[0])
}

/// An answer whose entries each hold one pair, no name occurring twice, yields
/// exactly those pairs, in order.
pub proof fn lemma_single_distinct_entries_flatten(entries: Seq<Seq<(Seq<char>, Seq<char>)>>)
    requires
        single_entries(entries),
        names_distinct(pair_names(entry_pairs(entries))),
    ensures
        spec_flatten_entries(entries) == SecretsOutcome::Secrets(entry_pairs(entries)),
        entries.len() > 0 ==> spec_flatten(entries) == SecretsOutcome::Secrets(
            entry_pairs(entries),
        ),
    decreases entries.len(),
{
    if entries.len() > 0 {
        let prefix = entries.drop_last();
        assert(entry_pairs(prefix) =~= entry_pairs(entries).drop_last());
        assert(pair_names(entry_pairs(prefix)) =~= pair_names(entry_pairs(entries)).drop_last());
        assert(single_entries(prefix)) by {
            assert forall|i: int| 0 <= i < prefix.len() implies #[trigger] prefix[i].len() == 1 by {
                assert(prefix[i] == entries[i]);
            }
        }
        lemma_single_distinct_entries_flatten(prefix);
        let last = entries.last();
        assert(last.len() == 1);
        let names = pair_names(entry_pairs(entries));
        if pair_names(entry_pairs(prefix)).contains(last[0].0) {
            let k = choose|k: int|
                0 <= k < pair_names(entry_pairs(prefix)).len() && pair_names(entry_pairs(prefix))[k]
                    == last[0].0;
            assert(names[k] == names[entries.len() - 1]);
        }
        assert(entry_pairs(prefix).push(last[0]) =~= entry_pairs(entries));
    } else {
        assert(entry_pairs(entries) =~= Seq::<(Seq<char>, Seq<char>)>::empty());
    }
}

/// The first `n` entries each hold exactly one pair, and no two of them share a
/// name.
pub open spec fn accepted_up_to(entries: Seq<Seq<(Seq<char>, Seq<char>)>>, n: int) -> bool {
    &&& forall|k: int| 0 <= k < n ==> #[trigger] entries[k].len() == 1
    &&& forall|a: int, b: int|
        0 <= a < b < n ==> #[trigger] entries[a][0].0 != #[trigger] entries[b][0].0
}

/// What the client answers for a successful server answer holding `entries`:
/// - the pair of each entry, in order, when there are entries, each holds exactly
///   one pair and no two share a name, and an error otherwise;
/// - no secrets at all when there is no entry;
/// - a malformed entry when an entry does not hold exactly one pair, all before it
///   being accepted;
/// - a duplicate of `d` when an entry, all before it being accepted, holds one pair
///   named `d` and an earlier entry's pair is also named `d`.
pub open spec fn checked_answer(
    entries: Seq<Seq<(Seq<char>, Seq<char>)>>,
    result: Result<Vec<(String, String)>, ClientError>,
) -> bool {
    &&& result is Ok <==> (entries.len() > 0 && accepted_up_to(entries, entries.len() as int))
    &&& result matches Ok(v) ==> pairs_view(v@) == entry_pairs(entries)
    &&& result matches Err(e) ==> match e {
        ClientError::EmptySecrets => entries.len() == 0,
        ClientError::MalformedEntry => exists|i: int|
            0 <= i < entries.len() && #[trigger] entries[i].len() != 1 && accepted_up_to(entries, i),
        ClientError::DuplicateEnv(d) => exists|i: int, j: int|
            0 <= i < j < entries.len() && #[trigger] entries[j].len() == 1 && accepted_up_to(entries, j)
                && #[trigger] entries[i][0].0 == d@ && entries[j][0].0 == d@,
        _ => false,
    }
}

/// Reading the entries in order accepts exactly the entries that each hold one
/// pair under a name no other entry uses, yielding their pairs; otherwise it stops
/// at the first entry that is malformed or repeats an earlier name.
proof fn lemma_flatten_entries_outcome(entries: Seq<Seq<(Seq<char>, Seq<char>)>>)
    ensures
        match spec_flatten_entries(entries) {
            SecretsOutcome::Secrets(p) => accepted_up_to(entries, entries.len() as int) && p
                == entry_pairs(entries),
            SecretsOutcome::MalformedEntry => exists|i: int|
                0 <= i < entries.len() && #[trigger] entries[i].len() != 1 && accepted_up_to(
                    entries,
                    i,
                ),
            SecretsOutcome::DuplicateEnv(d) => exists|i: int, j: int|
                0 <= i < j < entries.len() && #[trigger] entries[j].len() == 1 && accepted_up_to(
                    entries,
                    j,
                ) && #[trigger] entries[i][0].0 == d && entries[j][0].0 == d,
            SecretsOutcome::EmptySecrets => false,
        },
    decreases entries.len(),
{
    if entries.len() == 0 {
        assert(entry_pairs(entries) =~= Seq::<(Seq<char>, Seq<char>)>::empty());
    } else {
        let prefix = entries.drop_last();
        let n = prefix.len() as int;
        lemma_flatten_entries_outcome(prefix);
        assert forall|k: int| 0 <= k < n implies #[trigger] prefix[k] == entries[k] by {}
        match spec_flatten_entries(prefix) {
            SecretsOutcome::Secrets(p) => {
                let last = entries.last();
                assert(last == entries[n]);
                assert(accepted_up_to(entries, n)) by {
                    assert forall|k: int| 0 <= k < n implies #[trigger] entries[k].len() == 1 by {
                        assert(prefix[k].len() == 1);
                    }
                    assert forall|a: int, b: int| 0 <= a < b < n implies #[trigger] entries[a][0].0
                        != #[trigger] entries[b][0].0 by {
                        assert(prefix[a][0].0 != prefix[b][0].0);
                    }
                }
                if last.len() != 1 {
                    assert(entries[n].len() != 1);
                } else if pair_names(p).contains(last[0].0) {
                    let k = choose|k: int| 0 <= k < pair_names(p).len() && pair_names(p)[k] == last[0].0;
                    assert(p[k] == entry_pairs(prefix)[k]);
                    assert(entries[k][0].0 == last[0].0);
                    assert(entries[n].len() == 1);
                } else {
                    assert(accepted_up_to(entries, entries.len() as int)) by {
                        assert forall|a: int, b: int|
                            0 <= a < b < entries.len() implies #[trigger] entries[a][0].0
                            != #[trigger] entries[b][0].0 by {
                            if b == n {
                                assert(pair_names(p)[a] == entries[a][0].0);
                            } else {
                                assert(prefix[a][0].0 != prefix[b][0].0);
                            }
                        }
                    }
                    assert(p.push(last[0]) =~= entry_pairs(entries));
                }
            },
            SecretsOutcome::MalformedEntry => {
                let i = choose|i: int|
                    0 <= i < prefix.len() && #[trigger] prefix[i].len() != 1 && accepted_up_to(
                        prefix,
                        i,
                    );
                assert(entries[i].len() != 1);
                assert(accepted_up_to(entries, i)) by {
                    assert forall|k: int| 0 <= k < i implies #[trigger] entries[k].len() == 1 by {
                        assert(prefix[k].len() == 1);
                    }
                    assert forall|a: int, b: int| 0 <= a < b < i implies #[trigger] entries[a][0].0
                        != #[trigger] entries[b][0].0 by {
                        assert(prefix[a][0].0 != prefix[b][0].0);
                    }
                }
            },
            SecretsOutcome::DuplicateEnv(d) => {
                let (i, j) = choose|i: int, j: int|
                    0 <= i < j < prefix.len() && #[trigger] prefix[j].len() == 1 && accepted_up_to(
                        prefix,
                        j,
                    ) && #[trigger] prefix[i][0].0 == d && prefix[j][0].0 == d;
                assert(entries[j].len() == 1);
                assert(entries[i][0].0 == d);
                assert(accepted_up_to(entries, j)) by {
                    assert forall|k: int| 0 <= k < j implies #[trigger] entries[k].len() == 1 by {
                        assert(prefix[k].len() == 1);
                    }
                    assert forall|a: int, b: int| 0 <= a < b < j implies #[trigger] entries[a][0].0
                        != #[trigger] entries[b][0].0 by {
                        assert(prefix[a][0].0 != prefix[b][0].0);
                    }
                }
            },
            SecretsOutcome::EmptySecrets => {},
        }
    }
}

/// The client accepts a successful server answer exactly when it has entries,
/// each holding exactly one pair, no two of which share a name, and then yields
/// the pair of each entry, in order: one pair per entry. Otherwise it refuses the
/// answer, naming the first fault: no entry at all, an entry that does not hold
/// one pair, or a name that an earlier entry already used. In particular an answer
/// in which two entries share a name is never accepted, whatever their values.
pub proof fn lemma_client_checks_answer(
    entries: Seq<Seq<(Seq<char>, Seq<char>)>>,
    result: Result<Vec<(String, String)>, ClientError>,
)
    requires
        result_is(spec_flatten(entries), result),
    ensures
        checked_answer(entries, result),
        (exists|i: int, j: int|
            0 <= i < j < entries.len() && #[trigger] entries[i].len() == 1 && #[trigger] entries[j].len()
                == 1 && entries[i][0].0 == entries[j][0].0) ==> result is Err,
{
    lemma_flatten_entries_outcome(entries);
    if entries.len() > 0 {
        match spec_flatten_entries(entries) {
            SecretsOutcome::MalformedEntry => {
                let i = choose|i: int|
                    0 <= i < entries.len() && #[trigger] entries[i].len() != 1 && accepted_up_to(
                        entries,
                        i,
                    );
                assert(!accepted_up_to(entries, entries.len() as int));
            },
            SecretsOutcome::DuplicateEnv(d) => {
                let (i, j) = choose|i: int, j: int|
                    0 <= i < j < entries.len() && #[trigger] entries[j].len() == 1 && accepted_up_to(
                        entries,
                        j,
                    ) && #[trigger] entries[i][0].0 == d && entries[j][0].0 == d;
                assert(!accepted_up_to(entries, entries.len() as int));
            },
            _ => {},
        }
    }
}

/// Once reading the first `n` entries fails, reading all of them fails the same way.
proof fn lemma_flatten_stops(entries: Seq<Seq<(Seq<char>, Seq<char>)>>, n: int)
    requires
        0 < n <= entries.len(),
        !(spec_flatten_entries(entries.take(n)) is Secrets),
    ensures
        spec_flatten_entries(entries) == spec_flatten_entries(entries.take(n)),
    decreases entries.len() - n,
{
    if n < entries.len() {
        assert(entries.take(n + 1).drop_last() =~= entries.take(n));
        lemma_flatten_stops(entries, n + 1);
    } else {
        assert(entries.take(n) =~= entries);
    }
}

/// What the client makes of the server's answer, given as the result of parsing
/// it: a parse failure is a malformed payload, an error answer carries the
/// server's message, and a successful answer is checked by [`flatten_secrets`].
pub fn interpret_response(parsed: Result<WireResponse, String>) -> (result: Result<
    Vec<(String, String)>,
    ClientError,
>)
    ensures
        match parsed {
            Err(d) => result matches Err(ClientError::MalformedPayload(m)) && m@ == d@,
            Ok(WireResponse::Success(r)) => result_is(spec_flatten(secrets_view(r)), result)
                && checked_answer(secrets_view(r), result),
            Ok(WireResponse::Error(e)) => result matches Err(ClientError::Server(m)) && m@
                == e.error.message@,
        },
{
    match parsed {
        Err(description) => Err(ClientError::MalformedPayload(description)),
        Ok(WireResponse::Success(response)) => flatten_secrets(response),
        Ok(WireResponse::Error(response)) => Err(ClientError::Server(response.error.message)),
    }
}

/// The text that describes a client error.
pub open spec fn client_error_text(e: ClientError) -> Seq<char> {
    match e {
        ClientError::MissingSocketPath => "client-exec requires --socket-path or DIVECHAIN_SOCKET_PATH"@,
        ClientError::MalformedPayload(d) => "invalid server response: "@ + d@,
        ClientError::EmptySecrets => "invalid server response: secrets must not be empty"@,
        ClientError::MalformedEntry => "invalid server response: each secret entry must contain exactly one env var"@,
        ClientError::DuplicateEnv(name) => "invalid server response: duplicate env '"@ + name@ + "'"@,
        ClientError::Server(m) => m@,
    }
}

impl ClientError {
    /// The class of the error.
    pub fn kind(&self) -> (kind: ClientErrorKind)
        ensures
            kind == match *self {
                ClientError::MissingSocketPath => ClientErrorKind::InvalidInput,
                ClientError::Server(_) => ClientErrorKind::Other,
                _ => ClientErrorKind::InvalidData,
            },
    {
        match self {
            ClientError::MissingSocketPath => ClientErrorKind::InvalidInput,
            ClientError::Server(_) => ClientErrorKind::Other,
            _ => ClientErrorKind::InvalidData,
        }
    }

    /// The text that describes the error.
    pub fn to_string(&self) -> (text: String)
        ensures
            text@ == client_error_text(*self),
    {
        match self {
            ClientError::MissingSocketPath => "client-exec requires --socket-path or DIVECHAIN_SOCKET_PATH".to_owned(),
            ClientError::MalformedPayload(description) => {
                let mut text = "invalid server response: ".to_owned();
                text.append(description.as_str());
                text
            },
            ClientError::EmptySecrets => "invalid server response: secrets must not be empty".to_owned(),
            ClientError::MalformedEntry => "invalid server response: each secret entry must contain exactly one env var".to_owned(),
            ClientError::DuplicateEnv(name) => {
                let mut text = "invalid server response: duplicate env '".to_owned();
                text.append(name.as_str());
                text.append("'");
                text
            },
            ClientError::Server(message) => message.clone(),
        }
    }
}

} // verus!
