[package]
name = "terra_core"
version = "0.1.0"
edition = "2021"
publish = false

[dependencies]
anyhow = "1"
clap = { version = "4", features = ["derive"] }
noise = "0.9"
rand = "0.8"
serde = { version = "1", features = ["derive"] }
serde_json = "1"
