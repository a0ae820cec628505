//! Snapshots and rollback of a compatibility-layer prefix directory, together
//! with the configuration models and the launch rules that surround them.
//!
//! Everything here computes on plain values. Reading the file system, writing
//! the archive stream and starting processes is left to the caller, who feeds
//! what it observed into the state machines of this crate and carries out the
//! actions they return.

pub mod config;
pub mod digest;
pub mod engine;
pub mod installer;
pub mod path;
pub mod prefix;
pub mod rollback;
pub mod runtime;
