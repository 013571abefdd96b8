[package]
name = "hako"
version = "0.1.0"
edition = "2021"
publish = false

[dependencies]
anyhow = "*"
clap = { version = "*", features = ["derive"] }
nix = { version = "*", features = ["mount", "sched", "socket", "term", "process", "fs", "user", "signal"] }
serde = { version = "*", features = ["derive"] }
serde_json = "*"
