//! Batch processing primitives: execution mode, per-item error reports and
//! the size ceiling that protects against unbounded-cost batch calls.

use vstd::prelude::*;
use crate::errors::ContractError;

verus! {

/// Largest number of items a single batch call may carry.
pub const MAX_BATCH_SIZE: usize = 100;

/// Execution policy of a batch operation.
#[derive(Clone, Copy, Debug, PartialEq, Eq, Structural)]
pub enum BatchMode {
    /// All-or-nothing: the first failure aborts with zero mutations applied.
    Atomic,
    /// Failures are recorded per index and skipped; processing continues.
    BestEffort,
}

/// Why a batch, or one of its items, failed.
#[derive(Clone, Copy, Debug, PartialEq, Eq, Structural)]
pub enum BatchErrorCode {
    /// An item failed with a registry error.
    Contract(ContractError),
    /// The batch itself exceeded [`MAX_BATCH_SIZE`].
    SizeExceeded,
}

/// A failure report for one batch item (or for the batch as a whole, at
/// index 0).
#[derive(Clone, Copy, Debug, PartialEq, Eq, Structural)]
pub struct BatchError {
    /// Index of the failing item within the batch.
    pub index: usize,
    /// What went wrong.
    pub error: BatchErrorCode,
}

/// Result of a batch operation with no per-item payload: a succeeded count
/// plus (index, error) pairs for the failures.
#[derive(Debug)]
pub struct BatchResultVoid {
    /// Number of items applied successfully.
    pub successful: usize,
    /// One report per failed item.
    pub errors: Vec<BatchError>,
}

/// Enforces the batch size ceiling, reused by every bulk entry point.
pub struct BatchProcessor;

impl BatchProcessor {
    /// Fails with [`BatchErrorCode::SizeExceeded`] above the configured
    /// ceiling; changes nothing.
    pub fn enforce_batch_limits(size: usize) -> (r: Result<(), BatchErrorCode>)
        ensures
            r is Ok <==> size <= MAX_BATCH_SIZE,
            r is Err ==> r == Err::<(), BatchErrorCode>(BatchErrorCode::SizeExceeded),
    {
        if size > MAX_BATCH_SIZE {
            Err(BatchErrorCode::SizeExceeded)
        } else {
            Ok(())
        }
    }
}

} // verus!
