[package]
name = "bahn"
version = "0.1.0"
edition = "2021"
publish = false

[dependencies]
semver = "1"
serde = { version = "1", features = ["derive"] }
toml = "*"
clap = "4"
eyre = "0.6"
tokio = { version = "1", features = ["rt-multi-thread"] }
walkdir = "2"
