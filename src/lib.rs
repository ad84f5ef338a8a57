//! A small snapshot engine: a content-addressed object store, an ordered
//! snapshot history, and the save, diff, revert and prune operations over them.
pub mod clean;
pub mod config;
pub mod diff;
pub mod error;
pub mod exclude;
pub mod format;
pub mod hashing;
pub mod history;
pub mod inspect;
pub mod log_cmd;
pub mod manifest;
pub mod pathord;
pub mod prune;
pub mod repo;
pub mod revert;
pub mod save;
pub mod store;
pub mod text;
pub mod trace;
pub mod watch;
