[package]
name = "check_package"
version = "0.1.0"
edition = "2021"
publish = false

[dependencies]
semver = "=1.0.28"
regex-syntax = "=0.8.11"
anyhow = "=1.0.104"
xshell = "=0.2.7"
serde = { version = "=1.0.229", features = ["derive"] }
serde_json = "=1.0.154"

[dev-dependencies]
regex = "1.12.3"
