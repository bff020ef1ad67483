//! A local, single-user manager of short task notes: one record per file,
//! a cache of decoded records with prefix lookup, and the state machine of
//! an interactive session over that cache.
pub mod cli;
pub mod ops;
pub mod storage;
pub mod text;
pub mod todo;
pub mod tui;
pub mod util;
