[package]
name = "skill_graph"
version = "0.1.0"
edition = "2021"
publish = false

[dependencies]
anyhow = "1"
colored = "*"
petgraph = "*"
ratatui = "*"
serde_json = "1"
