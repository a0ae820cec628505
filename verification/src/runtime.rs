//! Running a program inside a prefix.

pub mod launch;
pub mod session;
