use divechain::client::{interpret_response, ClientError};
use divechain::protocol::{ErrorBody, ErrorResponse, SecretRequest, SecretResponse, WireResponse};
use divechain::secret_store::{SecretStore, SecretStoreError, UnsupportedKeychain};
use divechain::server::{
    bind_refusal_message, decode_secret_entry, load_response, map_secret_store_error,
    next_bind_step, process_request, request_log_message, response_for_secrets, BindEvent,
    BindStep, NamespaceSecretLoader, ServerError, StoreLoader,
};

struct StubLoader {
    result: Result<Vec<(String, Vec<u8>)>, SecretStoreError>,
}

impl NamespaceSecretLoader for StubLoader {
    fn load_namespace_env(&self, _namespace: &str) -> Result<Vec<(String, Vec<u8>)>, SecretStoreError> {
        match &self.result {
            Ok(secrets) => Ok(secrets.clone()),
            Err(SecretStoreError::NamespaceNotFound { namespace }) => {
                Err(SecretStoreError::NamespaceNotFound { namespace: namespace.clone() })
            }
            Err(SecretStoreError::SecretNotFound { namespace, env }) => {
                Err(SecretStoreError::SecretNotFound { namespace: namespace.clone(), env: env.clone() })
            }
            Err(SecretStoreError::BackendFailure { code, message }) => {
                Err(SecretStoreError::BackendFailure { code: *code, message: message.clone() })
            }
            Err(SecretStoreError::UnsupportedPlatform(platform)) => {
                Err(SecretStoreError::UnsupportedPlatform(platform))
            }
            Err(SecretStoreError::Io(error)) => Err(SecretStoreError::Io(std::io::Error::new(
                error.kind(),
                error.to_string(),
            ))),
        }
    }
}

fn github() -> Result<SecretRequest, String> {
    Ok(SecretRequest { namespace: "github".to_owned() })
}

fn entry(env: &str, secret: &str) -> Vec<(String, String)> {
    vec![(env.to_owned(), secret.to_owned())]
}

fn error_response(code: &str, message: &str) -> WireResponse {
    WireResponse::Error(ErrorResponse {
        error: ErrorBody { code: code.to_owned(), message: message.to_owned() },
    })
}

#[test]
fn process_request_returns_secrets_array() {
    let loader = StubLoader {
        result: Ok(vec![
            ("ENV_NAME".to_owned(), b"secret-value".to_vec()),
            ("OTHER_ENV".to_owned(), b"other-secret".to_vec()),
        ]),
    };

    let response = process_request(&loader, github());

    assert_eq!(
        response,
        WireResponse::Success(SecretResponse {
            secrets: vec![entry("ENV_NAME", "secret-value"), entry("OTHER_ENV", "other-secret")],
        })
    );
}

#[test]
fn process_request_rejects_unknown_namespace() {
    let loader = StubLoader { result: Ok(vec![]) };

    let response = process_request(&loader, github());

    assert_eq!(
        response,
        error_response("namespace_not_found", "namespace 'github' does not exist")
    );
}

#[test]
fn process_request_rejects_invalid_json() {
    let loader = StubLoader { result: Ok(vec![]) };
    let description = serde_json::from_slice::<serde_json::Value>(br#"{"namespace":"github""#)
        .expect_err("payload is not JSON")
        .to_string();

    let response = process_request(&loader, Err(description));

    assert!(matches!(
        response,
        WireResponse::Error(ErrorResponse {
            error: ErrorBody {
                code,
                ..
            },
        }) if code == "invalid_request"
    ));
}

#[test]
fn process_request_rejects_non_utf8_secrets() {
    let loader = StubLoader {
        result: Ok(vec![("ENV_NAME".to_owned(), vec![0xff, 0xfe])]),
    };

    let response = process_request(&loader, github());

    assert_eq!(
        response,
        error_response("invalid_secret_encoding", "secret 'github.ENV_NAME' is not valid UTF-8")
    );
}

#[test]
fn request_log_message_includes_namespace() {
    let request = SecretRequest {
        namespace: "github".to_owned(),
    };

    assert_eq!(
        request_log_message(&request),
        "received request for namespace 'github'"
    );
}

#[test]
fn invalid_request_message_carries_the_description() {
    let loader = StubLoader { result: Ok(vec![]) };
    let response = process_request(&loader, Err("EOF while parsing".to_owned()));
    assert_eq!(
        response,
        error_response("invalid_request", "invalid request payload: EOF while parsing")
    );
}

#[test]
fn store_failures_become_internal_errors() {
    let loader = StubLoader { result: Err(SecretStoreError::UnsupportedPlatform("linux")) };
    assert_eq!(
        process_request(&loader, github()),
        error_response("internal_error", "macOS Keychain backend is unsupported on linux")
    );
    let loader = StubLoader {
        result: Err(SecretStoreError::NamespaceNotFound { namespace: "elsewhere".to_owned() }),
    };
    assert_eq!(
        process_request(&loader, github()),
        error_response("namespace_not_found", "namespace 'github' does not exist")
    );
    assert_eq!(
        map_secret_store_error(
            SecretStoreError::BackendFailure { code: -1, message: Some("boom".to_owned()) },
            "aws"
        ),
        ServerError::Internal("keychain operation failed with OSStatus -1: boom".to_owned())
    );
}

#[test]
fn store_loader_reads_through_its_keychain() {
    let loader = StoreLoader { store: SecretStore::new(), keychain: UnsupportedKeychain::new("linux") };
    let response = load_response(&loader, SecretRequest { namespace: "github".to_owned() });
    assert_eq!(
        response,
        Err(ServerError::Internal("macOS Keychain backend is unsupported on linux".to_owned()))
    );
}

#[test]
fn first_invalid_secret_is_reported() {
    let result = response_for_secrets(
        "ns".to_owned(),
        Ok(vec![
            ("OK".to_owned(), b"fine".to_vec()),
            ("BAD1".to_owned(), vec![0xc3]),
            ("BAD2".to_owned(), vec![0xff]),
        ]),
    );
    assert_eq!(
        result,
        Err(ServerError::InvalidSecretEncoding { namespace: "ns".to_owned(), env: "BAD1".to_owned() })
    );
    assert_eq!(
        decode_secret_entry("ns", "E".to_owned(), "héllo".as_bytes().to_vec()),
        Ok(entry("E", "héllo"))
    );
}

#[test]
fn served_secrets_reach_the_client_unchanged() {
    let loaded = vec![
        ("B_ENV".to_owned(), b"second".to_vec()),
        ("A_ENV".to_owned(), "ünï".as_bytes().to_vec()),
    ];
    let loader = StubLoader { result: Ok(loaded) };
    let response = process_request(&loader, github());
    assert_eq!(
        interpret_response(Ok(response)),
        Ok(vec![
            ("B_ENV".to_owned(), "second".to_owned()),
            ("A_ENV".to_owned(), "ünï".to_owned()),
        ])
    );
}

#[test]
fn unknown_namespace_reaches_the_client_as_its_message() {
    let loader = StubLoader { result: Ok(vec![]) };
    let response = process_request(&loader, github());
    assert_eq!(
        interpret_response(Ok(response)),
        Err(ClientError::Server("namespace 'github' does not exist".to_owned()))
    );
}

#[test]
fn bind_step_takes_over_missing_paths_and_stale_sockets() {
    assert_eq!(next_bind_step(BindEvent::PathMissing), BindStep::Bind);
    assert_eq!(next_bind_step(BindEvent::SocketFound), BindStep::Probe);
    assert_eq!(next_bind_step(BindEvent::ConnectRefused), BindStep::RemoveStaleThenBind);
}

#[test]
fn bind_step_refuses_files_links_and_active_sockets() {
    assert_eq!(next_bind_step(BindEvent::OtherFileFound), BindStep::RefuseExisting);
    assert_eq!(next_bind_step(BindEvent::SymlinkFound), BindStep::RefuseExisting);
    assert_eq!(next_bind_step(BindEvent::ConnectSucceeded), BindStep::RefuseInUse);
    assert_eq!(next_bind_step(BindEvent::InspectionFailed), BindStep::PassOnFailure);
    assert_eq!(next_bind_step(BindEvent::ConnectFailed), BindStep::PassOnFailure);
    assert_eq!(
        bind_refusal_message(BindStep::RefuseExisting, "/tmp/x.sock").as_deref(),
        Some("socket path '/tmp/x.sock' already exists")
    );
    assert_eq!(
        bind_refusal_message(BindStep::RefuseInUse, "/tmp/x.sock").as_deref(),
        Some("socket path '/tmp/x.sock' is already in use")
    );
    assert_eq!(bind_refusal_message(BindStep::Bind, "/tmp/x.sock"), None);
}
