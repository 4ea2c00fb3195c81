[package]
name = "oxichrome"
version = "0.1.0"
edition = "2021"
publish = false

[dependencies]
serde_json = { version = "=1.0.154", features = ["preserve_order"] }
syn = { version = "=2.0.119", features = ["full", "visit", "parsing", "printing", "clone-impls", "proc-macro"] }
proc-macro2 = "=1.0.107"
quote = "=1.0.47"
anyhow = "=1.0.104"
clap = { version = "=4.6.7", features = ["derive"] }
toml = "=0.8.23"
which = "=8.0.6"
