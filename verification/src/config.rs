//! The configuration documents: channels, engines, manifests and profiles.

pub mod models;
pub mod validate;
