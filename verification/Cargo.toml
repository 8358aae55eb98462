[package]
name = "ciri"
version = "0.1.0"
edition = "2021"
publish = false

[dependencies]
base64 = "=0.22.1"
serde_json = "=1.0.154"
unicode-width = "=0.2.3"
clap = { version = "=4.6.7", features = ["derive"] }
serde = { version = "1", features = ["derive"] }
anyhow = "1"
dirs = "*"
dialoguer = "*"
