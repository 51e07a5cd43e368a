[package]
name = "tabular_rl"
version = "0.1.0"
edition = "2021"
publish = false

[dependencies]
rand = "0.9"
serde = { version = "1", features = ["derive"] }
serde_json = "1"
libloading = "0.8"
indicatif = "0.17"
