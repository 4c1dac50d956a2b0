//! The messages exchanged between the secret server and its clients.
//!
//! A client sends one [`SecretRequest`]; the server answers with one
//! [`WireResponse`]: either the secrets of the namespace, each entry holding one
//! environment variable and its value, or an error with a code and a message.

use vstd::prelude::*;

verus! {

/// One secret entry: environment variable names and their values. The server
/// always sends entries of exactly one pair, and a client accepts no other, so no
/// property of longer entries (such as their names being distinct) is relied on.
pub type SecretEntry = Vec<(String, String)>;

/// A request for the secrets of a namespace.
#[derive(Debug, PartialEq, Eq)]
pub struct SecretRequest {
    pub namespace: String,
}

/// The secrets of a namespace.
#[derive(Debug, PartialEq, Eq)]
pub struct SecretResponse {
    pub secrets: Vec<SecretEntry>,
}

/// An error answer.
#[derive(Debug, PartialEq, Eq)]
pub struct ErrorResponse {
    pub error: ErrorBody,
}

/// The code and human-readable message of an error answer.
#[derive(Debug, PartialEq, Eq)]
pub struct ErrorBody {
    pub code: String,
    pub message: String,
}

/// Any answer of the server.
#[derive(Debug, PartialEq, Eq)]
pub enum WireResponse {
    Success(SecretResponse),
    Error(ErrorResponse),
}

/// The character views of one entry's pairs.
pub open spec fn entry_view(entry: SecretEntry) -> Seq<(Seq<char>, Seq<char>)> {
    entry@.map_values(|p: (String, String)| (p.0@, p.1@))
}

/// The character views of every entry of a response.
pub open spec fn secrets_view(response: SecretResponse) -> Seq<Seq<(Seq<char>, Seq<char>)>> {
    response.secrets@.map_values(|e: SecretEntry| entry_view(e))
}

/// The character views of a list of environment variable names and values.
pub open spec fn pairs_view(pairs: Seq<(String, String)>) -> Seq<(Seq<char>, Seq<char>)> {
    pairs.map_values(|p: (String, String)| (p.0@, p.1@))
}

} // verus!
