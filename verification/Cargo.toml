[package]
name = "gtno"
version = "0.1.0"
edition = "2021"
publish = false

[dependencies]
burn = { version = "=0.19.1", default-features = false, features = ["dataset"] }
burn-core = { version = "=0.19.1", default-features = false, features = ["std", "dataset"] }
csv = "=1.4.0"
serde = { version = "=1.0.229", features = ["derive"] }
