[package]
name = "dashboard_core"
version = "0.1.0"
edition = "2021"
publish = false

[dependencies]
chrono = "*"
dirs = "*"
portable-pty = "*"
regex = "*"
serde = { version = "*", features = ["derive"] }
serde_json = "*"
walkdir = "*"
zip = { version = "*", default-features = false, features = ["deflate"] }
