//! The domain layer: entities, enums, the task state machine, and reward math.
//!
//! Free of I/O: callers pass timestamps in.

pub mod bank;
pub mod config;
pub mod ids;
pub mod note;
pub mod pomodoro;
pub mod repository;
pub mod reward;
pub mod session;
pub mod task;
pub mod wikilink;
