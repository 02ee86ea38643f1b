[package]
name = "redis_lite"
version = "0.1.0"
edition = "2021"
publish = false

[dependencies]
anyhow = "1"
chrono = "0.4"
clap = { version = "4", features = ["derive"] }
rand = "0.9"
socket2 = "0.5"
tokio = { version = "1", features = ["full"] }

[dev-dependencies]
hex = "0.4"
