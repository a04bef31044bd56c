//! The error that persistence operations report.
//!
//! The error is deliberately abstract so that no backend detail leaks into the domain.

use vstd::prelude::*;

verus! {

/// Error returned by persistence operations.
#[derive(Debug, PartialEq, Eq)]
pub enum RepositoryError {
    /// The requested entity does not exist.
    NotFound,
    /// The storage backend failed. The message carries backend detail for diagnostics.
    Backend {
        /// Human-readable description of the backend failure.
        message: String,
    },
}

impl RepositoryError {
    /// The error's message: `entity not found`, or `storage backend error: {message}`.
    pub fn message(&self) -> (r: String)
        ensures
            r@ == (match self {
                RepositoryError::NotFound => "entity not found"@,
                RepositoryError::Backend { message } => "storage backend error: "@ + message@,
            }),
    {
        match self {
            RepositoryError::NotFound => String::from_str("entity not found"),
            RepositoryError::Backend { message } => {
                let mut text = String::from_str("storage backend error: ");
                text.append(message.as_str());
                text
            },
        }
    }
}

} // verus!
