//! A personal secret manager: each credential is an encrypted file inside a
//! version-controlled tree, synchronized across machines through a remote.
//!
//! The library is organised around four parts: key management and the
//! encryption envelope, the credential store (payload layout and the five
//! mutating operations), the version-control ledger (staged commits, remotes,
//! fetch with a merge decision, push), and a closed error taxonomy shared by
//! all of them.

use vstd::prelude::*;

pub mod config;
pub mod crypto;
pub mod keys;
pub mod store;
pub mod sync;
pub mod git;
pub mod password;
pub mod payload;

verus! {

/// The closed taxonomy of failures surfaced by every operation.
#[derive(Clone, Copy, Debug, PartialEq, Eq, Structural)]
pub enum ErrorKind {
    InitializationError,
    PermissionDenied,
    NotInitialized,
    BadConfig,
    InsertionError,
    AlreadyExists,
    EncryptionError,
    DecryptionError,
    NotFound,
    RemoteError,
    FetchError,
    PushError,
    ConfigAlreadySet,
    /// Catch-all for states the other kinds cannot describe.
    Internal,
}

/// A failure: one kind out of the closed taxonomy plus a human-readable message.
#[derive(Debug)]
pub struct Error {
    pub kind: ErrorKind,
    pub message: String,
}

impl Error {
    pub fn new(kind: ErrorKind, message: &str) -> (r: Error)
        ensures
            r.kind == kind,
            r.message@ == message@,
    {
        Error { kind, message: message.to_owned() }
    }
}

} // verus!
