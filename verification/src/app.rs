//! The application service that orchestrates the domain over the store and owns the
//! atomic task operations (start / complete task, quick-jot).

pub mod error;
pub mod service;
