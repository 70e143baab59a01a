//! The state behind the interactive views, free of any drawing.

pub mod graph_view;
pub mod overview;
