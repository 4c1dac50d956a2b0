//! Core logic of `divechain`: naming of keychain items, namespace listing,
//! the secret store facade, and the request/response protocol spoken
//! between the secret server and its clients.

pub mod client;
pub mod command;
pub mod exchange;
pub mod keychain;
pub mod keychain_items;
pub mod protocol;
pub mod secret_store;
pub mod server;
pub mod std_items;
pub mod text;

pub use keychain::{KeychainError, KeychainStore};
pub use secret_store::{SecretStore, SecretStoreError};
