[package]
name = "repoctl"
version = "0.1.0"
edition = "2021"
publish = false

[dependencies]
camino = "1"
globset = "0.4"
serde = { version = "1", features = ["derive"] }
serde_json = "1"
serde_norway = "*"
clap = { version = "4", features = ["derive"] }
