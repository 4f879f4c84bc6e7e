[package]
name = "sweepy"
version = "0.2.1"
edition = "2021"
publish = false

[dependencies]
anyhow = "1"
clap = { version = "4", features = ["derive"] }
colored = "*"
dirs = "*"
serde = { version = "1", features = ["derive"] }
toml = "*"
walkdir = "2"
