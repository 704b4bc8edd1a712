[package]
name = "pi-grok-adapter"
version = "0.1.0"
edition = "2021"
publish = false

[dependencies]
semver = "=1.0.28"
serde = { version = "=1.0.229", features = ["derive"] }
serde_json = { version = "=1.0.154", features = ["preserve_order", "unbounded_depth"] }
clap = { version = "=4.6.7", features = ["derive"] }
anyhow = "=1.0.104"
dunce = "=1.0.5"
dirs = "=7.0.0"
rusqlite = { version = "=0.41.1", features = ["bundled"] }
