[package]
name = "privacy_providers"
version = "0.1.0"
edition = "2021"
publish = false

[dependencies]
alloy-primitives = "=1.7.3"
serde = { version = "=1.0.229", features = ["derive"] }
serde_json = "=1.0.154"
thiserror = "2"

[dev-dependencies]
ruint = "=1.21.1"
alloy-sol-types = "1"
