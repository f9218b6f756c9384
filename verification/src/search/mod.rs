//! Workspace text search: the matcher, the per-file scan and the result
//! limits. Walking the folder and reading files is left to the caller,
//! which hands each entry to the engine in walk order.

pub mod engine;
pub mod ui;
