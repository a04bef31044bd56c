//! Persistence: the in-memory store that the task service runs against, and the value
//! codecs that a persistence adapter uses to write and read rows.

pub mod codec;
pub mod config;
pub mod memory;
