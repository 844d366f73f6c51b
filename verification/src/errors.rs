//! Error taxonomy shared by the three components.

use vstd::prelude::*;

verus! {

/// Errors of the ownership registry.
#[derive(Clone, Copy, Debug, PartialEq, Eq, Structural)]
pub enum ContractError {
    /// Contract has not been initialized.
    NotInitialized,
    /// Contract has already been initialized.
    AlreadyInitialized,
    /// No token with the given token id exists.
    TokenNotFound,
    /// Invalid token id.
    InvalidTokenId,
    /// Caller is not the owner of the token.
    NotOwner,
    /// Caller is not authorized to perform this action.
    NotAuthorized,
    /// Transfer is not allowed.
    TransferNotAllowed,
    /// Token has already been settled.
    AlreadySettled,
    /// Commitment has not expired yet.
    NotExpired,
    /// Invalid duration (must be > 0).
    InvalidDuration,
    /// Invalid max loss percent (must be 0-100).
    InvalidMaxLoss,
    /// Invalid commitment type.
    InvalidCommitmentType,
    /// Invalid amount (must be > 0).
    InvalidAmount,
    /// Reentrancy detected.
    ReentrancyDetected,
}

/// Errors of the commitment ledger.
#[derive(Clone, Copy, Debug, PartialEq, Eq, Structural)]
pub enum LedgerError {
    /// Ledger has already been initialized.
    AlreadyInitialized,
    /// Locked amount must be positive (and small enough for scoring math).
    InvalidAmount,
    /// Duration must be positive.
    InvalidDuration,
    /// No commitment with the given id exists.
    NotFound,
    /// The commitment has not expired yet.
    NotExpired,
    /// The commitment is already in a terminal state.
    AlreadySettled,
    /// Caller is not the owner of the commitment.
    NotOwner,
}

/// Errors of the compliance engine.
#[derive(Clone, Copy, Debug, PartialEq, Eq, Structural)]
pub enum AttestationError {
    /// Engine has already been initialized.
    AlreadyInitialized,
    /// Engine has not been initialized.
    NotInitialized,
    /// Caller is neither the admin nor a registered verifier.
    NotAuthorized,
    /// Fee or attested amount must be positive, and accumulation must not
    /// exceed the machine range.
    InvalidAmount,
    /// No fee recipient has been configured.
    NoFeeRecipient,
    /// Reentrancy detected.
    ReentrancyDetected,
}

} // verus!
