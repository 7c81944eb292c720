[package]
name = "xlake"
version = "0.1.0"
edition = "2021"
publish = false

[dependencies]
anyhow = "*"
async-tempfile = "*"
blake2 = "*"
bs58 = "*"
clap = { version = "*", features = ["derive"] }
datafusion = "*"
futures = "*"
tokio = { version = "*", features = ["full"] }
which = "*"
