//! Engines: where an installed engine lies and when it counts as installed.

pub mod install;
