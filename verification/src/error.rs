//! Kinds of task failure.
use vstd::prelude::*;

verus! {

/// Why a task operation did not go through.
#[derive(Debug, Clone, Copy, PartialEq, Eq, Structural)]
pub enum ErrorKind {
    /// The task has already finished.
    TaskShutdown,
    /// The task is in no state from which the operation can proceed.
    TaskStateInvalid,
    /// The task was canceled.
    TaskCanceled,
    /// The task panicked.
    Panic,
}

} // verus!
