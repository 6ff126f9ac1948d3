[package]
name = "tetris"
version = "0.1.0"
edition = "2021"
publish = false

[dependencies]
rand = "=0.8.8"
serde = { version = "=1.0.229", features = ["derive"] }
serde_json = "=1.0.154"
base64 = "=0.13.1"
bincode = "=1.3.3"
chrono = { version = "=0.4.45", features = ["serde"] }
rust-crypto = "=0.2.36"
cgmath = "=0.18.0"
rusqlite = { version = "=0.29.0", features = ["bundled"] }
