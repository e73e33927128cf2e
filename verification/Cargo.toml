[package]
name = "tradebutler"
version = "0.1.0"
edition = "2021"
publish = false

[dependencies]
csv = "*"
dirs = "*"
rusqlite = { version = "*", features = ["bundled"] }
serde = { version = "*", features = ["derive"] }
