[package]
name = "stratum"
version = "0.1.0"
edition = "2021"
publish = false

[dependencies]
bufstream = "0.1"
serde = { version = "1", features = ["derive"] }
serde_json = "1"
toml = "0.5"
