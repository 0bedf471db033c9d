//! Plugin-side shared pieces: error kinds, managed-block row ids, dump parsing, sync planning.
pub mod dump;
pub mod managed;
pub mod state;
pub mod sync;
