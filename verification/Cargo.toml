[package]
name = "vista_sdk"
version = "0.1.0"
edition = "2021"
publish = false

[dependencies]
flate2 = "1"
moka = { version = "0.12", features = ["sync"] }
once_cell = "1"
serde = { version = "1", features = ["derive"] }
serde_json = "1"
thiserror = "1"
