[package]
name = "disk_usage"
version = "0.1.0"
edition = "2021"
publish = false

[dependencies]
chrono = { version = "0.4", default-features = false, features = ["std"] }
uuid = { version = "1", features = ["v4"] }
walkdir = "2"
dirs = "*"
serde = { version = "1", features = ["derive"] }
