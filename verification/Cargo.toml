[package]
name = "qdbr"
version = "0.1.0"
edition = "2021"
publish = false

[dependencies]
anyhow = "1"
parquet2 = { version = "0.17", default-features = false }
