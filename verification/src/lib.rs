//! Automatic role configuration: where a `.mairu.json` lies, whether it is trusted, and how
//! sessions are listed.
pub mod auto;
pub mod cmd;
pub mod digest;
pub mod find;
pub mod git;
pub mod path;
pub mod text;
pub mod time;
pub mod trust;
pub mod worktree;
