[package]
name = "invaders"
version = "0.1.0"
edition = "2021"
publish = false

[dependencies]
itertools-num = "0.1"
lazy_static = "1"
serde = { version = "1", features = ["derive"] }
serde_json = "1"
