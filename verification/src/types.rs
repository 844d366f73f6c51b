//! Plain-value domain types shared across components.
//!
//! The host environment deals in free-form strings for commitment types,
//! attestation kinds and attestation payloads; the core works on the closed
//! sets those strings are parsed into, so that every transition site matches
//! exhaustively.

use vstd::prelude::*;

verus! {

/// Risk profile of a commitment. The closed set of recognized values;
/// anything else is rejected at the boundary as invalid.
#[derive(Clone, Copy, Debug, PartialEq, Eq, Structural)]
pub enum CommitmentType {
    Safe,
    Balanced,
    Aggressive,
}

/// Lifecycle state of a commitment. `Active` is initial; the other two are
/// terminal, and no operation may transition out of them.
#[derive(Clone, Copy, Debug, PartialEq, Eq, Structural)]
pub enum CommitmentStatus {
    Active,
    Settled,
    EarlyExit,
}

/// Kind of an attestation.
#[derive(Clone, Copy, Debug, PartialEq, Eq, Structural)]
pub enum AttestationKind {
    HealthCheck,
    Violation,
    FeeGeneration,
    Drawdown,
    Other,
}

/// Severity of a violation, as carried in an attestation payload.
#[derive(Clone, Copy, Debug, PartialEq, Eq, Structural)]
pub enum Severity {
    Low,
    Medium,
    High,
}

/// The part of an attestation's free-form key-value payload that scoring
/// reads: the `severity` entry, absent or unrecognized values folded to
/// `None`.
#[derive(Clone, Copy, Debug, PartialEq, Eq, Structural)]
pub struct AttestationPayload {
    /// Declared severity of a violation, if the payload carries one.
    pub severity: Option<Severity>,
}

} // verus!
