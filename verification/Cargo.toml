[package]
name = "evp"
version = "0.1.0"
edition = "2021"
publish = false

[dependencies]
serde_json = "=1.0.154"
shell-words = "=1.1.1"
serde = { version = "=1.0.229", features = ["derive"] }
unicode-width = "0.2"
clap = { version = "4", features = ["derive"] }
anyhow = "1"
flate2 = "1"
