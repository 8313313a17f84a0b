[package]
name = "payment_engine"
version = "0.1.0"
edition = "2021"
publish = false

[dependencies]
rust_decimal = { version = "1", features = ["serde"] }
csv = "1"
serde = { version = "1", features = ["derive"] }
thiserror = "1"
anyhow = "1"
