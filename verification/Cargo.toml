[package]
name = "gdbg"
version = "0.1.0"
edition = "2021"
publish = false

[dependencies]
anyhow = "=1.0.104"
clap = { version = "=4.6.7", features = ["derive"] }
nix = { version = "=0.31.3", features = ["fs", "process", "signal"] }
regex = "=1.13.1"
rusqlite = { version = "=0.41.1", features = ["backup", "bundled"] }
serde = { version = "=1.0.229", features = ["derive"] }
serde_json = { version = "=1.0.154", features = ["float_roundtrip"] }
which = "=8.0.6"
