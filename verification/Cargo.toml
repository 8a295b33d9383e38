[package]
name = "mdbook_trace"
version = "0.1.0"
edition = "2021"
publish = false

[dependencies]
anyhow = "1"
clap = { version = "4", features = ["derive"] }
mdbook = { version = "0.4", default-features = false }
semver = "1"
serde = { version = "1", features = ["derive"] }
serde_json = "1"
