[package]
name = "gitgraph"
version = "0.1.0"
edition = "2021"
publish = false

[dependencies]
git2 = { version = "*", default-features = false }
tui = "0.19"
crossterm = "0.25"
