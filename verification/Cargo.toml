[package]
name = "cargo-kimi"
version = "0.1.0"
edition = "2021"
publish = false

[dependencies]
anyhow = "1"
chrono = "0.4"
colored = "2"
regex = "1"
serde = { version = "1", features = ["derive"] }
serde_json = "1"
tokio = { version = "1", features = ["rt-multi-thread", "io-std", "sync", "macros"] }
toml = "0.8"
tower-lsp = "0.20"
walkdir = "2"
