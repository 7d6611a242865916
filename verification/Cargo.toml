[package]
name = "st0x_finance"
version = "0.1.0"
edition = "2021"
publish = false

[dependencies]
rain-math-float = "=0.1.15"
rain-math-float-serde = "*"
alloy-primitives = "=1.7.3"
rust_decimal = "=1.43.0"
serde = { version = "=1.0.229", features = ["derive"] }
thiserror = "=2.0.21"

[dev-dependencies]
serde_json = "=1.0.154"
