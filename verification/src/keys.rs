//! Key material handling: the three persisted artifacts, the decision logic
//! of idempotent key generation, and the error mapping for loading keys. The
//! key generation itself (an RSA/PGP keypair with a passphrase) is an
//! external collaborator driven from outside the verified crate.

use vstd::prelude::*;

use crate::{Error, ErrorKind};

verus! {

/// The three key artifacts persisted in the config directory: the armored
/// public key, the armored passphrase-locked secret key, and the derived RSA
/// public key as PEM.
pub struct Keys {
    pub pub_key: String,
    pub private_key: String,
    pub rsa_pub_key: String,
}

/// What creating the config directory came to.
#[derive(Clone, Copy, Debug, PartialEq, Eq, Structural)]
pub enum DirCreation {
    Created,
    AlreadyExists,
    PermissionDenied,
    OtherFailure,
}

/// Decides what key generation does once the config directory was attempted:
/// write the three artifacts after a fresh directory, silently do nothing
/// when the directory already exists (generation is idempotent), fail
/// `PermissionDenied` when rights were lacking, and surface anything else as
/// the catch-all internal kind.
pub fn generate_keys_action(dir: DirCreation) -> (r: Result<bool, Error>)
    ensures
        match dir {
            DirCreation::Created => r matches Ok(proceed) && proceed,
            DirCreation::AlreadyExists => r matches Ok(proceed) && !proceed,
            DirCreation::PermissionDenied => r matches Err(e) && e.kind
                == ErrorKind::PermissionDenied,
            DirCreation::OtherFailure => r matches Err(e) && e.kind == ErrorKind::Internal,
        },
{
    match dir {
        DirCreation::Created => Ok(true),
        DirCreation::AlreadyExists => Ok(false),
        DirCreation::PermissionDenied => Err(
            Error::new(
                ErrorKind::PermissionDenied,
                "you dont have permission to create the config folder",
            ),
        ),
        DirCreation::OtherFailure => Err(
            Error::new(ErrorKind::Internal, "failed to create the config folder"),
        ),
    }
}

/// How loading a key artifact failed.
#[derive(Clone, Copy, Debug, PartialEq, Eq, Structural)]
pub enum KeyLoadFailure {
    Missing,
    Invalid,
}

/// The error surfaced when a key artifact cannot be loaded: a missing file
/// means the store was never initialized, an unreadable one a bad config.
pub fn key_load_error(failure: KeyLoadFailure, message: &str) -> (r: Error)
    ensures
        r.kind == match failure {
            KeyLoadFailure::Missing => ErrorKind::NotInitialized,
            KeyLoadFailure::Invalid => ErrorKind::BadConfig,
        },
{
    match failure {
        KeyLoadFailure::Missing => Error::new(ErrorKind::NotInitialized, message),
        KeyLoadFailure::Invalid => Error::new(ErrorKind::BadConfig, message),
    }
}

} // verus!
