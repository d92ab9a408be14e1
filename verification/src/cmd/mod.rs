//! Commands.
pub mod list_sessions;
