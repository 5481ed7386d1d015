[package]
name = "ages"
version = "0.1.0"
edition = "2021"
publish = false

[dependencies]
fixed = "1"
rand = "0.8"
rand_chacha = "0.3"
anyhow = "1"
serde = { version = "1", features = ["derive"] }
schemars = "0.8"
