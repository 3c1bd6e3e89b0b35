[package]
name = "cargo_cgp"
version = "0.1.0"
edition = "2021"
publish = false

[dependencies]
anyhow = "*"
cargo_metadata = "*"
miette = { version = "*", features = ["fancy"] }
serde_json = "*"
