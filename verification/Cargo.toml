[package]
name = "census"
version = "0.1.0"
edition = "2021"
publish = false

[dependencies]
schemars = "0.8"
serde = { version = "1", features = ["derive"] }
thiserror = "1"
toml = "0.8"
tracing = "0.1"
