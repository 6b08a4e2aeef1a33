[package]
name = "brv"
version = "0.1.0"
edition = "2021"
publish = false

[dependencies]
anyhow = "1"
regex = "1"
rustc-hash = "2"
serde = { version = "1", features = ["derive"] }
toml = "0.8"
