[package]
name = "measurelog"
version = "0.1.0"
edition = "2021"
publish = false

[dependencies]
clap = "*"
rusqlite = { version = "*", features = ["bundled"] }
serde = { version = "*", features = ["derive"] }
serde_json = "*"
