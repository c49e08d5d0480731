//! The errors the registry answers with.
use vstd::prelude::*;

verus! {

/// A storage entry that a request needed and did not find.
#[derive(Debug, PartialEq, Eq, Clone, Copy)]
pub enum StoreItem {
    /// The registry's configuration (owner and issuance count).
    Config,
    /// A certificate record.
    Certificate,
    /// The stored contract name and version.
    ContractVersion,
}

/// A failure of the storage or of address validation.
#[derive(Debug, PartialEq, Eq)]
pub enum StdError {
    /// The entry is not in storage.
    NotFound { item: StoreItem },
    /// Any other failure, with its message (an address that did not validate).
    GenericErr { msg: String },
}

impl Clone for StdError {
    fn clone(&self) -> (r: Self)
        ensures
            r == *self,
    {
        match self {
            StdError::NotFound { item } => StdError::NotFound { item: *item },
            StdError::GenericErr { msg } => StdError::GenericErr { msg: msg.clone() },
        }
    }
}

/// Why a request to the registry was refused.
#[derive(Debug, PartialEq, Eq)]
pub enum ContractError {
    /// Storage or address validation failed.
    Std(StdError),
    /// Only the owner may do this.
    Unauthorized {},
    /// The sender is not an allowlisted issuer.
    NotIssuer {},
    /// A certificate with this id already exists.
    DuplicateCertificate { cert_id: String },
    /// No certificate has this id.
    CertificateNotFound { cert_id: String },
    /// The certificate is already revoked.
    AlreadyRevoked { cert_id: String },
    /// The batch holds more certificates than allowed.
    BatchTooLarge { size: usize, max: usize },
    /// The batch holds no certificate.
    EmptyBatch {},
    /// The certificate id is empty or longer than 128 characters.
    InvalidCertId {},
    /// The content hash is not 64 lowercase hex digits.
    InvalidContentHash {},
    /// The issuer allowlist would be left empty.
    NoIssuersLeft {},
    /// The stored state belongs to another contract.
    InvalidMigration { expected: String, actual: String },
}

} // verus!
