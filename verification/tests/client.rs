use divechain::client::{
    flatten_secrets, interpret_response, resolve_socket_path, ClientError, ClientErrorKind,
};
use divechain::protocol::{ErrorBody, ErrorResponse, SecretResponse, WireResponse};

fn entry(env: &str, secret: &str) -> Vec<(String, String)> {
    vec![(env.to_owned(), secret.to_owned())]
}

#[test]
fn socket_path_argument_wins_over_environment() {
    let resolved = resolve_socket_path(
        Some(b"/tmp/from-arg.sock".to_vec()),
        Some(b"/tmp/from-env.sock".to_vec()),
    )
    .expect("socket path");

    assert_eq!(resolved, b"/tmp/from-arg.sock".to_vec());
}

#[test]
fn socket_path_falls_back_to_environment() {
    let resolved =
        resolve_socket_path(None, Some(b"/tmp/from-env.sock".to_vec())).expect("socket path");

    assert_eq!(resolved, b"/tmp/from-env.sock".to_vec());
}

#[test]
fn socket_path_requires_argument_or_environment() {
    let error = resolve_socket_path(None, None).expect_err("socket path should be required");

    assert_eq!(error.kind(), ClientErrorKind::InvalidInput);
    assert_eq!(
        error.to_string(),
        "client-exec requires --socket-path or DIVECHAIN_SOCKET_PATH"
    );
}

#[test]
fn empty_environment_socket_path_is_ignored() {
    let error = resolve_socket_path(None, Some(Vec::new())).expect_err("empty value is unset");
    assert_eq!(error, ClientError::MissingSocketPath);
    assert_eq!(resolve_socket_path(Some(Vec::new()), None), Ok(Vec::new()));
}

#[test]
fn parse_response_returns_flattened_secrets() {
    let response = WireResponse::Success(SecretResponse {
        secrets: vec![entry("AWS_ACCESS_KEY_ID", "key"), entry("AWS_SECRET_ACCESS_KEY", "secret")],
    });

    let secrets = interpret_response(Ok(response)).expect("response should parse");

    assert_eq!(
        secrets,
        vec![
            ("AWS_ACCESS_KEY_ID".to_owned(), "key".to_owned()),
            ("AWS_SECRET_ACCESS_KEY".to_owned(), "secret".to_owned()),
        ]
    );
}

#[test]
fn parse_response_returns_server_error_message() {
    let response = WireResponse::Error(ErrorResponse {
        error: ErrorBody {
            code: "namespace_not_found".to_owned(),
            message: "namespace 'aws' does not exist".to_owned(),
        },
    });

    let error = interpret_response(Ok(response)).expect_err("server error should fail");

    assert_eq!(error.kind(), ClientErrorKind::Other);
    assert_eq!(error.to_string(), "namespace 'aws' does not exist");
}

#[test]
fn parse_response_rejects_malformed_payload() {
    let description = serde_json::from_slice::<serde_json::Value>(br#"{"secrets":"broken""#)
        .expect_err("payload is not JSON")
        .to_string();

    let error = interpret_response(Err(description)).expect_err("malformed response should fail");

    assert_eq!(error.kind(), ClientErrorKind::InvalidData);
    assert!(error.to_string().starts_with("invalid server response:"));
}

#[test]
fn parse_response_rejects_empty_secrets() {
    let response = WireResponse::Success(SecretResponse { secrets: vec![] });

    let error = interpret_response(Ok(response)).expect_err("empty secrets should fail");

    assert_eq!(error.kind(), ClientErrorKind::InvalidData);
    assert_eq!(
        error.to_string(),
        "invalid server response: secrets must not be empty"
    );
}

#[test]
fn parse_response_rejects_entries_with_multiple_keys() {
    let response = WireResponse::Success(SecretResponse {
        secrets: vec![vec![
            ("AWS_ACCESS_KEY_ID".to_owned(), "key".to_owned()),
            ("AWS_SECRET_ACCESS_KEY".to_owned(), "secret".to_owned()),
        ]],
    });

    let error = interpret_response(Ok(response)).expect_err("multi-key entry should fail");

    assert_eq!(error.kind(), ClientErrorKind::InvalidData);
    assert_eq!(
        error.to_string(),
        "invalid server response: each secret entry must contain exactly one env var"
    );
}

#[test]
fn parse_response_rejects_duplicate_env_names() {
    let response = WireResponse::Success(SecretResponse {
        secrets: vec![entry("AWS_ACCESS_KEY_ID", "key"), entry("AWS_ACCESS_KEY_ID", "duplicate")],
    });

    let error = interpret_response(Ok(response)).expect_err("duplicate env should fail");

    assert_eq!(error.kind(), ClientErrorKind::InvalidData);
    assert_eq!(
        error.to_string(),
        "invalid server response: duplicate env 'AWS_ACCESS_KEY_ID'"
    );
}

#[test]
fn empty_entry_is_malformed() {
    let response = SecretResponse { secrets: vec![entry("A", "1"), vec![]] };
    assert_eq!(flatten_secrets(response), Err(ClientError::MalformedEntry));
}

#[test]
fn first_problem_in_entry_order_is_reported() {
    let response = SecretResponse {
        secrets: vec![entry("A", "1"), entry("A", "2"), vec![]],
    };
    assert_eq!(flatten_secrets(response), Err(ClientError::DuplicateEnv("A".to_owned())));
    let response = SecretResponse {
        secrets: vec![entry("A", "1"), vec![], entry("A", "2")],
    };
    assert_eq!(flatten_secrets(response), Err(ClientError::MalformedEntry));
}
