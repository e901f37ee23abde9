//! The error kinds that the ledger and the facade return.
//!
//! Errors are data, never aborts: every operation returns a typed
//! success/failure value and callers branch on the kind.

use vstd::prelude::*;

verus! {

/// Why an operation failed.
#[derive(Debug)]
pub enum Error {
    /// The caller lacks the role the operation demands.
    Unauthorized,
    /// `grant_manager` on an identity whose manager flag is already set.
    AlreadyManager,
    /// `revoke_manager` on an identity that is absent or already revoked.
    InvalidManager,
    /// `revoke_manager` aimed at the owner identity.
    CannotRevokeOwner,
    /// An operation reached a service whose state was never initialized.
    NotInitialized,
    /// The token id names no minted token.
    NonExistentToken,
    /// A transfer whose destination is the token's current owner.
    InvalidTransfer,
    /// Batch inputs whose lengths disagree even after padding.
    LengthMismatch,
    /// `base_uri` while the base URI is empty.
    NotSet,
    /// A mint allocated an id that is already taken: an invariant
    /// violation, reported rather than papered over.
    InsertConflict,
    /// The remote ledger could not be reached, or the call mechanism
    /// itself failed; the detail is the transport's own message.
    RemoteCallFailed(String),
}

impl Error {
    /// A short name for the error kind, for callers that log or display.
    pub fn describe(&self) -> (r: &'static str)
        ensures
            self is Unauthorized ==> r@ == "Unauthorized"@,
            self is AlreadyManager ==> r@ == "AlreadyManager"@,
            self is InvalidManager ==> r@ == "InvalidManager"@,
            self is CannotRevokeOwner ==> r@ == "CannotRevokeOwner"@,
            self is NotInitialized ==> r@ == "NotInitialized"@,
            self is NonExistentToken ==> r@ == "NonExistentToken"@,
            self is InvalidTransfer ==> r@ == "InvalidTransfer"@,
            self is LengthMismatch ==> r@ == "LengthMismatch"@,
            self is NotSet ==> r@ == "NotSet"@,
            self is InsertConflict ==> r@ == "InsertConflict"@,
            self is RemoteCallFailed ==> r@ == "RemoteCallFailed"@,
    {
        match self {
            Error::Unauthorized => "Unauthorized",
            Error::AlreadyManager => "AlreadyManager",
            Error::InvalidManager => "InvalidManager",
            Error::CannotRevokeOwner => "CannotRevokeOwner",
            Error::NotInitialized => "NotInitialized",
            Error::NonExistentToken => "NonExistentToken",
            Error::InvalidTransfer => "InvalidTransfer",
            Error::LengthMismatch => "LengthMismatch",
            Error::NotSet => "NotSet",
            Error::InsertConflict => "InsertConflict",
            Error::RemoteCallFailed(_) => "RemoteCallFailed",
        }
    }
}

} // verus!
