//! Dependency graph engine for a collection of skills.

pub mod commands;
pub mod graph;
pub mod json;
pub mod names;
pub mod render;
pub mod skill;
pub mod text;
pub mod tui;
