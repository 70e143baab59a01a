//! What the commands compute, apart from reading files and printing.

pub mod graph;
pub mod list;
