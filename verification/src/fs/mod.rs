//! The Explorer's file tree.

pub mod tree;
