[package]
name = "git-branchless-submit"
version = "0.1.0"
edition = "2021"
publish = false

[dependencies]
eyre = "0.6"
indexmap = "2.2"
serde = { version = "1.0", features = ["derive"] }
serde_json = "1.0"
tempfile = "3"
tracing = "0.1"
