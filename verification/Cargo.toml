[package]
name = "env_secrets"
version = "0.1.0"
edition = "2021"
publish = false

[dependencies]
serde_json = "1"
clap = { version = "4", features = ["derive"] }
rpassword = "7"
anyhow = "1"
secret-service = { version = "4", features = ["rt-async-io-crypto-rust"] }
security-framework = "2"
