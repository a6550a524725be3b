[package]
name = "package_docs"
version = "0.1.0"
edition = "2021"
publish = false

[dependencies]
base64 = "0.22"
comemo = "0.4"
ecow = "0.2"
indexmap = "2"
itertools = "0.13"
parking_lot = "0.12"
reflexo = { version = "0.5.4", default-features = false }
regex = "1"
serde = { version = "1", features = ["derive"] }
serde_json = "1"
toml = "0.8"
typst = "0.11.1"
