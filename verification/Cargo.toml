[package]
name = "doibak"
version = "0.1.0"
edition = "2021"
publish = false

[dependencies]
rand = { version = "0.8", features = ["small_rng"] }
futures = "0.3"
async-std = { version = "1", features = ["attributes"] }
anyhow = "1"
serde = { version = "1", features = ["derive"] }
serde-lexpr = "0.1"
