//! Application-service errors.

use vstd::prelude::*;

use crate::domain::repository::RepositoryError;
use crate::domain::task::{status_name, InvalidTransition};

verus! {

/// An error from an application service operation.
#[derive(Debug, PartialEq, Eq)]
pub enum Error {
    /// No task exists with the given id.
    TaskNotFound,
    /// No note exists with the given id.
    NoteNotFound,
    /// The operation requires an active (in-progress or paused) task.
    TaskNotActive,
    /// The task has no running session to advance.
    NoRunningSession,
    /// The earned pomo count did not fit the ledger's amount type.
    RewardOverflow,
    /// A task state transition was rejected.
    Transition(InvalidTransition),
    /// The storage backend failed.
    Repository(RepositoryError),
}

impl Error {
    /// The error's message. Wrapped errors show their own message.
    pub fn message(&self) -> (r: String)
        ensures
            self matches Error::TaskNotFound ==> r@ == "task not found"@,
            self matches Error::NoteNotFound ==> r@ == "note not found"@,
            self matches Error::TaskNotActive ==> r@ == "task is not active"@,
            self matches Error::NoRunningSession ==> r@ == "no running session for the task"@,
            self matches Error::RewardOverflow ==> r@ == "reward amount is too large"@,
            self matches Error::Transition(e) ==> r@ == "invalid task transition from "@
                + status_name(e.spec_from()) + " to "@ + status_name(e.spec_to()),
            self matches Error::Repository(e) ==> r@ == (match e {
                RepositoryError::NotFound => "entity not found"@,
                RepositoryError::Backend { message } => "storage backend error: "@ + message@,
            }),
    {
        match self {
            Error::TaskNotFound => String::from_str("task not found"),
            Error::NoteNotFound => String::from_str("note not found"),
            Error::TaskNotActive => String::from_str("task is not active"),
            Error::NoRunningSession => String::from_str("no running session for the task"),
            Error::RewardOverflow => String::from_str("reward amount is too large"),
            Error::Transition(e) => e.message(),
            Error::Repository(e) => e.message(),
        }
    }
}

} // verus!
