//! Failures surfaced by the solver's drivers.

use vstd::prelude::*;

verus! {

#[derive(Debug, Clone)]
pub enum Connect4Error {
    /// A top-level evaluation returned no value although no cancellation
    /// was expected.
    EvaluatePositionError,
    /// A helper thread panicked or could not be joined.
    WorkerThreadJoinError,
    /// A file-system failure while reading or writing the database files,
    /// carrying the reported message.
    DatabaseIOError(String),
}

} // verus!
