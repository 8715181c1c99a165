[package]
name = "cleanup"
version = "0.1.0"
edition = "2021"
publish = false

[dependencies]
sled = "*"
chrono = "*"
clap = { version = "*", features = ["derive"] }
ignore = "*"
anyhow = "*"

[dev-dependencies]
serde_json = "*"
