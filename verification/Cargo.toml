[package]
name = "ml_core"
version = "0.1.0"
edition = "2021"
publish = false

[dependencies]
anyhow = "1"
csv = "1"
log = "0.4"
serde = { version = "1", features = ["derive"] }
