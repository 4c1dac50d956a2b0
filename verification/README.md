# divechain

`divechain` runs commands with secrets from the macOS Keychain injected as
environment variables, and can serve those secrets to other processes over a
Unix domain socket.

Layout:

- `src/` — the library, written in Verus:
  - `keychain_items` names keychain items (`divechain-<namespace>`) and turns the
    service names found in the keychain into the sorted list of namespaces;
  - `secret_store` and `keychain` are the store facades; they reach the platform
    keychain through the `Keychain` trait, and state what a save, a delete, a
    listing and a load do to and find in a keychain that keeps its items (a saved
    secret is loaded back, a deleted one is not, a namespace with a secret is
    listed);
  - `command` splits the command line that `exec` runs;
  - `protocol`, `server` and `client` hold the request/response messages, how the
    server answers a request, and how a client checks the answer;
  - `exchange` states what a whole server/client exchange guarantees;
  - `text` and `std_items` hold string order, prefix stripping, decimal rendering
    and the few standard-library operations the library relies on.
- `app/` — the command line program: argument parsing, reading the secret,
  running commands, the macOS keychain, sockets and JSON.
- `tests/` — tests of the library.
