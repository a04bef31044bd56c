//! Jotphant — a Pomodoro task tracker with a Markdown notebook, as a verified library.
//!
//! Layers point inward (`app → domain ← storage`):
//! - `domain`: the entities and their rules (the task state machine, the Pomodoro
//!   cycle, reward math, the bank ledger, notes and `[[wiki-links]]`);
//! - `storage`: the in-memory store the task service runs against, the configuration
//!   file's schema, and the column codecs a persistence adapter reads and writes with;
//! - `app`: the task-workflow service, which keeps a single active task owning the
//!   single running timer;
//! - `localization`, `ui`, `notifier`: catalog lookups, the board's window-free
//!   decisions and texts, and the notification interface;
//! - `text`, `time`: character-level text helpers, and instants and calendar days.
//!
//! Time is never read from a clock here; callers pass timestamps in.

pub mod app;
pub mod domain;
pub mod localization;
pub mod notifier;
pub mod storage;
pub mod text;
pub mod time;
pub mod ui;
