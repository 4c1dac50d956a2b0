//! The server side of the secret server protocol: answering one request for the
//! secrets of a namespace, and deciding how to take over the socket path.

use vstd::prelude::*;

use crate::protocol::{
    entry_view, secrets_view, ErrorBody, ErrorResponse, SecretEntry, SecretRequest,
    SecretResponse, WireResponse,
};
use crate::secret_store::{
    is_keychain_error, store_error_text, store_loads, Keychain, SecretStore, SecretStoreError,
};
use crate::std_items::string_from_utf8;
use vstd::utf8::{decode_utf8, valid_utf8};

verus! {

/// Why a request could not be answered with secrets.
#[derive(Debug, PartialEq, Eq)]
pub enum ServerError {
    /// The request is not a well-formed request; holds the description.
    InvalidRequest(String),
    /// No secret is stored under the namespace.
    NamespaceNotFound(String),
    /// A stored secret is not valid UTF-8.
    InvalidSecretEncoding { namespace: String, env: String },
    /// Loading the secrets failed; holds the description.
    Internal(String),
}

/// Loads every environment variable name and secret stored under a namespace.
/// Implementations decide where the secrets come from; what a load gives is related
/// to the namespace asked for by [`NamespaceSecretLoader::loads`].
pub trait NamespaceSecretLoader {
    /// `loaded` is a result this loader may give for `namespace`. By default every
    /// result is admitted.
    open spec fn loads(
        &self,
        namespace: Seq<char>,
        loaded: Result<Vec<(String, Vec<u8>)>, SecretStoreError>,
    ) -> bool {
        true
    }

    fn load_namespace_env(&self, namespace: &str) -> (loaded: Result<
        Vec<(String, Vec<u8>)>,
        SecretStoreError,
    >)
        ensures
            self.loads(namespace@, loaded),
    ;
}

/// A secret store together with the keychain it reads.
pub struct StoreLoader<K> {
    pub store: SecretStore,
    pub keychain: K,
}

impl<K: Keychain> NamespaceSecretLoader for StoreLoader<K> {
    /// The store loads the namespace from its keychain.
    open spec fn loads(
        &self,
        namespace: Seq<char>,
        loaded: Result<Vec<(String, Vec<u8>)>, SecretStoreError>,
    ) -> bool {
        store_loads(self.keychain, namespace, loaded)
    }

    fn load_namespace_env(&self, namespace: &str) -> (result: Result<
        Vec<(String, Vec<u8>)>,
        SecretStoreError,
    >)
        ensures
            result matches Err(e) ==> is_keychain_error(e),
    {
        self.store.load_namespace_env(namespace, &self.keychain)
    }
}

/// The line the server logs for a request.
pub fn request_log_message(request: &SecretRequest) -> (message: String)
    ensures
        message@ == "received request for namespace '"@ + request.namespace@ + "'"@,
{
    let mut message = "received request for namespace '".to_owned();
    message.append(request.namespace.as_str());
    message.append("'");
    message
}

/// The entry that carries a secret whose bytes decode to text.
pub open spec fn decoded_entry(env: Seq<char>, secret: Seq<u8>) -> Seq<(Seq<char>, Seq<char>)> {
    seq![(env, decode_utf8(secret))]
}

/// Turns a stored secret into a response entry; secrets that are not UTF-8 text
/// cannot be sent.
pub fn decode_secret_entry(namespace: &str, env: String, secret: Vec<u8>) -> (result: Result<
    SecretEntry,
    ServerError,
>)
    ensures
        valid_utf8(secret@) ==> (result matches Ok(entry) && entry_view(entry) == decoded_entry(
            env@,
            secret@,
        )),
        !valid_utf8(secret@) ==> (result matches Err(ServerError::InvalidSecretEncoding {
            namespace: n,
            env: e,
        }) && n@ == namespace@ && e@ == env@),
{
    let ghost secret_bytes = secret@;
    match string_from_utf8(secret) {
        Some(text) => {
            let ghost env_view = env@;
            let mut entry: SecretEntry = Vec::new();
            entry.push((env, text));
            proof {
                assert(entry_view(entry) =~= decoded_entry(env_view, secret_bytes));
            }
            Ok(entry)
        },
        None => Err(ServerError::InvalidSecretEncoding { namespace: namespace.to_owned(), env }),
    }
}

/// The server error that a failure of the store becomes.
pub open spec fn store_error_served(e: SecretStoreError, namespace: Seq<char>, s: ServerError) -> bool {
    match e {
        SecretStoreError::NamespaceNotFound { .. } => s matches ServerError::NamespaceNotFound(n)
            && n@ == namespace,
        SecretStoreError::Io(_) => s is Internal,
        _ => s matches ServerError::Internal(m) && m@ == store_error_text(e),
    }
}

/// Maps a failure of the store: a missing namespace stays a missing namespace;
/// anything else is an internal error carrying the failure's description.
pub fn map_secret_store_error(error: SecretStoreError, namespace: &str) -> (served: ServerError)
    ensures
        store_error_served(error, namespace@, served),
{
    match error {
        SecretStoreError::NamespaceNotFound { .. } => ServerError::NamespaceNotFound(
            namespace.to_owned(),
        ),
        other => ServerError::Internal(other.to_string()),
    }
}

/// Every stored secret is valid UTF-8.
pub open spec fn all_valid_utf8(loaded: Seq<(String, Vec<u8>)>) -> bool {
    forall|i: int| 0 <= i < loaded.len() ==> #[trigger] valid_utf8(loaded[i].1@)
}

/// `i` is the first stored secret that is not valid UTF-8.
pub open spec fn first_invalid(loaded: Seq<(String, Vec<u8>)>, i: int) -> bool {
    &&& 0 <= i < loaded.len()
    &&& !valid_utf8(loaded[i].1@)
    &&& forall|j: int| 0 <= j < i ==> #[trigger] valid_utf8(loaded[j].1@)
}

/// The entries the server sends for these secrets: one per secret, in order.
pub open spec fn decoded_entries(loaded: Seq<(String, Vec<u8>)>) -> Seq<
    Seq<(Seq<char>, Seq<char>)>,
> {
    loaded.map_values(|p: (String, Vec<u8>)| decoded_entry(p.0@, p.1@))
}

/// The outcome of a request for `namespace`, given what loading it gave.
pub open spec fn secrets_answer(
    namespace: Seq<char>,
    loaded: Result<Vec<(String, Vec<u8>)>, SecretStoreError>,
    result: Result<SecretResponse, ServerError>,
) -> bool {
    match loaded {
        Err(e) => result matches Err(s) && store_error_served(e, namespace, s),
        Ok(v) => if v@.len() == 0 {
            result matches Err(ServerError::NamespaceNotFound(n)) && n@ == namespace
        } else if all_valid_utf8(v@) {
            result matches Ok(r) && secrets_view(r) == decoded_entries(v@)
        } else {
            result matches Err(ServerError::InvalidSecretEncoding { namespace: n, env: e }) && n@
                == namespace && exists|i: int| first_invalid(v@, i) && e@ == #[trigger] v@[i].0@
        },
    }
}

/// Builds the answer to a request for `namespace` from what loading it gave.
pub fn response_for_secrets(namespace: String, loaded: Result<Vec<(String, Vec<u8>)>, SecretStoreError>) -> (result:
    Result<SecretResponse, ServerError>)
    ensures
        secrets_answer(namespace@, loaded, result),
{
    let secrets = match loaded {
        Ok(secrets) => secrets,
        Err(error) => return Err(map_secret_store_error(error, namespace.as_str())),
    };
    if secrets.len() == 0 {
        return Err(ServerError::NamespaceNotFound(namespace));
    }
    let ghost all = secrets@;
    let mut entries: Vec<SecretEntry> = Vec::new();
    let mut i: usize = 0;
    while i < secrets.len()
        invariant
            0 <= i <= secrets@.len(),
            all == secrets@,
            all.len() > 0,
            loaded matches Ok(v) && v@ == all,
            entries@.len() == i,
            forall|j: int| 0 <= j < i ==> #[trigger] valid_utf8(all[j].1@),
            forall|j: int|
                0 <= j < i ==> #[trigger] entry_view(entries@[j]) == decoded_entry(
                    all[j].0@,
                    all[j].1@,
                ),
        decreases secrets@.len() - i,
    {
        let env = secrets[i].0.clone();
        let secret = secrets[i].1.clone();
        match decode_secret_entry(namespace.as_str(), env, secret) {
            Ok(entry) => entries.push(entry),
            Err(error) => {
                proof {
                    assert(first_invalid(all, i as int));
                    assert(error matches ServerError::InvalidSecretEncoding { env: e, .. } && e@
                        == all[i as int].0@);
                }
                return Err(error);
            },
        }
        i += 1;
    }
    let response = SecretResponse { secrets: entries };
    proof {
        assert(secrets_view(response) =~= decoded_entries(all));
    }
    Ok(response)
}

/// Loads the secrets of the requested namespace and builds the answer.
pub fn load_response<L: NamespaceSecretLoader>(loader: &L, request: SecretRequest) -> (result: Result<
    SecretResponse,
    ServerError,
>)
    ensures
        exists|loaded: Result<Vec<(String, Vec<u8>)>, SecretStoreError>|
            #[trigger] loader.loads(request.namespace@, loaded) && secrets_answer(
                request.namespace@,
                loaded,
                result,
            ),
{
    let ghost namespace = request.namespace@;
    let loaded = loader.load_namespace_env(request.namespace.as_str());
    let ghost loaded_ghost = loaded;
    let result = response_for_secrets(request.namespace, loaded);
    proof {
        assert(secrets_answer(namespace, loaded_ghost, result));
        assert(loader.loads(namespace, loaded_ghost));
    }
    result
}

/// The code of the error answer for a server error.
pub open spec fn error_code(e: ServerError) -> Seq<char> {
    match e {
        ServerError::InvalidRequest(_) => "invalid_request"@,
        ServerError::NamespaceNotFound(_) => "namespace_not_found"@,
        ServerError::InvalidSecretEncoding { .. } => "invalid_secret_encoding"@,
        ServerError::Internal(_) => "internal_error"@,
    }
}

/// The message of the error answer for a server error.
pub open spec fn error_message(e: ServerError) -> Seq<char> {
    match e {
        ServerError::InvalidRequest(m) => m@,
        ServerError::NamespaceNotFound(namespace) => "namespace '"@ + namespace@
            + "' does not exist"@,
        ServerError::InvalidSecretEncoding { namespace, env } => "secret '"@ + namespace@ + "."@
            + env@ + "' is not valid UTF-8"@,
        ServerError::Internal(m) => m@,
    }
}

impl ServerError {
    /// The error answer that reports this error.
    pub fn into_response(self) -> (response: ErrorResponse)
        ensures
            response.error.code@ == error_code(self),
            response.error.message@ == error_message(self),
    {
        match self {
            ServerError::InvalidRequest(message) => ErrorResponse {
                error: ErrorBody { code: "invalid_request".to_owned(), message },
            },
            ServerError::NamespaceNotFound(namespace) => {
                let mut message = "namespace '".to_owned();
                message.append(namespace.as_str());
                message.append("' does not exist");
                ErrorResponse { error: ErrorBody { code: "namespace_not_found".to_owned(), message } }
            },
            ServerError::InvalidSecretEncoding { namespace, env } => {
                let mut message = "secret '".to_owned();
                message.append(namespace.as_str());
                message.append(".");
                message.append(env.as_str());
                message.append("' is not valid UTF-8");
                ErrorResponse {
                    error: ErrorBody { code: "invalid_secret_encoding".to_owned(), message },
                }
            },
            ServerError::Internal(message) => ErrorResponse {
                error: ErrorBody { code: "internal_error".to_owned(), message },
            },
        }
    }
}

/// The server error for a request that could not be parsed; `description` says why.
pub fn invalid_request(description: String) -> (error: ServerError)
    ensures
        error matches ServerError::InvalidRequest(m) && m@ == "invalid request payload: "@
            + description@,
{
    let mut message = "invalid request payload: ".to_owned();
    message.append(description.as_str());
    ServerError::InvalidRequest(message)
}

/// The answer reports this server error.
pub open spec fn reports(response: WireResponse, e: ServerError) -> bool {
    response matches WireResponse::Error(r) && r.error.code@ == error_code(e) && r.error.message@
        == error_message(e)
}

/// The answer the server sends for a request for `namespace`, given what loading
/// it gave.
pub open spec fn answers(
    namespace: Seq<char>,
    loaded: Result<Vec<(String, Vec<u8>)>, SecretStoreError>,
    response: WireResponse,
) -> bool {
    exists|result: Result<SecretResponse, ServerError>|
        #[trigger] secrets_answer(namespace, loaded, result) && match result {
            Ok(r) => response == WireResponse::Success(r),
            Err(e) => reports(response, e),
        }
}

/// The answer for the result of [`load_response`].
pub fn wire_response(result: Result<SecretResponse, ServerError>) -> (response: WireResponse)
    ensures
        match result {
            Ok(r) => response == WireResponse::Success(r),
            Err(e) => reports(response, e),
        },
{
    match result {
        Ok(response) => WireResponse::Success(response),
        Err(error) => WireResponse::Error(error.into_response()),
    }
}

/// Answers one request, given as the result of parsing it: a request that could
/// not be parsed is answered with an `invalid_request` error; otherwise the
/// secrets of the namespace are loaded and sent, or the failure is reported.
pub fn process_request<L: NamespaceSecretLoader>(loader: &L, parsed: Result<SecretRequest, String>) -> (response:
    WireResponse)
    ensures
        match parsed {
            Err(d) => response matches WireResponse::Error(r) && r.error.code@ == "invalid_request"@
                && r.error.message@ == "invalid request payload: "@ + d@,
            Ok(request) => exists|loaded: Result<Vec<(String, Vec<u8>)>, SecretStoreError>|
                #[trigger] loader.loads(request.namespace@, loaded) && answers(
                    request.namespace@,
                    loaded,
                    response,
                ),
        },
{
    match parsed {
        Err(description) => WireResponse::Error(invalid_request(description).into_response()),
        Ok(request) => {
            let ghost namespace = request.namespace@;
            let loaded = loader.load_namespace_env(request.namespace.as_str());
            let ghost loaded_ghost = loaded;
            let result = response_for_secrets(request.namespace, loaded);
            let response = wire_response(result);
            proof {
                assert(secrets_answer(namespace, loaded_ghost, result));
                assert(answers(namespace, loaded_ghost, response));
                assert(loader.loads(namespace, loaded_ghost));
            }
            response
        },
    }
}

/// What the server has learnt so far while taking over its socket path.
#[derive(Debug, Clone, Copy, PartialEq, Eq)]
pub enum BindEvent {
    /// Nothing exists at the path.
    PathMissing,
    /// A Unix socket exists at the path.
    SocketFound,
    /// A symbolic link exists at the path.
    SymlinkFound,
    /// Some other kind of file exists at the path.
    OtherFileFound,
    /// Looking at the path failed for another reason than its absence.
    InspectionFailed,
    /// Connecting to the socket at the path succeeded: a server listens there.
    ConnectSucceeded,
    /// Connecting to the socket at the path was refused: nobody listens there.
    ConnectRefused,
    /// Connecting to the socket at the path failed for another reason.
    ConnectFailed,
}

/// What the server does next while taking over its socket path.
#[derive(Debug, Clone, Copy, PartialEq, Eq)]
pub enum BindStep {
    /// Bind a new listener at the path.
    Bind,
    /// Try to connect to the socket at the path, to learn whether it is in use.
    Probe,
    /// Remove the stale socket at the path, then bind.
    RemoveStaleThenBind,
    /// Give up: something that is not a stale socket occupies the path.
    RefuseExisting,
    /// Give up: a server already listens at the path.
    RefuseInUse,
    /// Give up with the failure just met.
    PassOnFailure,
}

/// Decides the next step of taking over the socket path. Only a missing path or
/// a socket nobody listens on is taken over; symbolic links, other files and
/// sockets in use are refused.
pub fn next_bind_step(event: BindEvent) -> (step: BindStep)
    ensures
        step == match event {
            BindEvent::PathMissing => BindStep::Bind,
            BindEvent::SocketFound => BindStep::Probe,
            BindEvent::SymlinkFound => BindStep::RefuseExisting,
            BindEvent::OtherFileFound => BindStep::RefuseExisting,
            BindEvent::InspectionFailed => BindStep::PassOnFailure,
            BindEvent::ConnectSucceeded => BindStep::RefuseInUse,
            BindEvent::ConnectRefused => BindStep::RemoveStaleThenBind,
            BindEvent::ConnectFailed => BindStep::PassOnFailure,
        },
{
    match event {
        BindEvent::PathMissing => BindStep::Bind,
        BindEvent::SocketFound => BindStep::Probe,
        BindEvent::SymlinkFound => BindStep::RefuseExisting,
        BindEvent::OtherFileFound => BindStep::RefuseExisting,
        BindEvent::InspectionFailed => BindStep::PassOnFailure,
        BindEvent::ConnectSucceeded => BindStep::RefuseInUse,
        BindEvent::ConnectRefused => BindStep::RemoveStaleThenBind,
        BindEvent::ConnectFailed => BindStep::PassOnFailure,
    }
}

/// The message with which the server refuses a socket path; `path` is the path as
/// displayed. `None` for steps that refuse nothing.
pub fn bind_refusal_message(step: BindStep, path: &str) -> (message: Option<String>)
    ensures
        match step {
            BindStep::RefuseExisting => message matches Some(m) && m@ == "socket path '"@ + path@
                + "' already exists"@,
            BindStep::RefuseInUse => message matches Some(m) && m@ == "socket path '"@ + path@
                + "' is already in use"@,
            _ => message is None,
        },
{
    match step {
        BindStep::RefuseExisting => {
            let mut message = "socket path '".to_owned();
            message.append(path);
            message.append("' already exists");
            Some(message)
        },
        BindStep::RefuseInUse => {
            let mut message = "socket path '".to_owned();
            message.append(path);
            message.append("' is already in use");
            Some(message)
        },
        _ => None,
    }
}

} // verus!
