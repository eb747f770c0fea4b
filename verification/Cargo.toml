[package]
name = "sorla_providers"
version = "0.1.0"
edition = "2021"
publish = false

[dependencies]
semver = "1"
serde = { version = "1", features = ["derive"] }
serde_json = "1"
ciborium = "0.2"
thiserror = "2"
tokio = { version = "1", features = ["rt"] }
foundationdb = "*"
