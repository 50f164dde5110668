//! The failures that end a run of the machine.

use vstd::prelude::*;

verus! {

/// Why a tick failed. Every failure is fatal to the run that met it.
#[derive(Debug, PartialEq, Eq)]
pub enum BldrError {
    /// This member has no entry in its own census.
    CensusNotFound,
    /// The machine is in a state for which no handler is registered.
    NoDispatch,
    /// The package's initialization routine failed, with its message.
    InitFailed(String),
    /// The supervised service could not be started, with the reason.
    StartFailed(String),
}

pub type BldrResult<T> = Result<T, BldrError>;

} // verus!
