[package]
name = "codex_local_env"
version = "0.1.0"
edition = "2021"
publish = false

[dependencies]
wildmatch = "2"
anyhow = "1"
tempfile = "3"
tokio = { version = "1", features = ["process", "sync", "rt", "fs"] }
