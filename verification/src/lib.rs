//! Core of a platform for time-bound value-locking positions ("commitments").
//!
//! Three components share a pair of small primitives:
//!
//! * [`ledger`] owns the canonical commitment records and their lifecycle
//!   state machine (`Active` -> `Settled` / `EarlyExit`, both terminal).
//! * [`registry`] owns the tokenized ownership ledger: a token per
//!   commitment, per-owner balances and token lists, with guarded single and
//!   batch mutation.
//! * [`engine`] stores attestations and derives two independent views of a
//!   commitment's compliance score from ledger snapshots.
//! * [`guard`] and [`batch`] hold the shared reentrancy guard and the batch
//!   size ceiling.
//!
//! Host concerns (durable storage, ambient authorization, event emission and
//! the clock) are the caller's: every entry point takes plain values, the
//! current time where it matters, and returns plain values.

mod assoc;
pub mod batch;
pub mod engine;
pub mod errors;
pub mod guard;
pub mod ledger;
pub mod registry;
pub mod types;
