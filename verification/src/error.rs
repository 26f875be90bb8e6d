//! The closed set of error kinds that the sync core reports.
//!
//! Foreground calls return these to the caller unchanged; background loops
//! log and continue. No variant ever carries key material or plaintext.

use vstd::prelude::*;

verus! {

/// An error surfaced by the sync core. Each variant carries a short
/// human-readable message; messages never contain key material.
#[derive(Debug, Clone)]
pub enum Error {
    AuthenticationFailed(String),
    NetworkError(String),
    DatabaseError(String),
    EncryptionFailed(String),
    DecryptionFailed(String),
    SyncConflict(String),
    DeviceNotFound(String),
    InvalidConfiguration(String),
    ServiceUnavailable(String),
    SerializationError(String),
    IoError(String),
    Unknown(String),
}

impl Error {
    /// The message carried by this error.
    pub fn message(&self) -> (r: &String)
        ensures
            r@ == self.spec_message(),
    {
        match self {
            Error::AuthenticationFailed(m) => m,
            Error::NetworkError(m) => m,
            Error::DatabaseError(m) => m,
            Error::EncryptionFailed(m) => m,
            Error::DecryptionFailed(m) => m,
            Error::SyncConflict(m) => m,
            Error::DeviceNotFound(m) => m,
            Error::InvalidConfiguration(m) => m,
            Error::ServiceUnavailable(m) => m,
            Error::SerializationError(m) => m,
            Error::IoError(m) => m,
            Error::Unknown(m) => m,
        }
    }

    /// The message as a mathematical sequence of characters.
    pub open spec fn spec_message(&self) -> Seq<char> {
        match self {
            Error::AuthenticationFailed(m) => m@,
            Error::NetworkError(m) => m@,
            Error::DatabaseError(m) => m@,
            Error::EncryptionFailed(m) => m@,
            Error::DecryptionFailed(m) => m@,
            Error::SyncConflict(m) => m@,
            Error::DeviceNotFound(m) => m@,
            Error::InvalidConfiguration(m) => m@,
            Error::ServiceUnavailable(m) => m@,
            Error::SerializationError(m) => m@,
            Error::IoError(m) => m@,
            Error::Unknown(m) => m@,
        }
    }
}

} // verus!
