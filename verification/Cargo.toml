[package]
name = "asset_squeeze"
version = "0.2.0"
edition = "2021"
publish = false

[dependencies]
anyhow = "1"
clap = { version = "4", features = ["derive"] }
oxipng = { version = "9", default-features = false }
regex = "1"
roxmltree = "0.20"
serde_yaml_ng = "0.10"
tempfile = "3"
