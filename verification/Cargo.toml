[package]
name = "kalimorfia"
version = "0.1.0"
edition = "2021"
publish = false

[dependencies]
itertools = "0.12"
nalgebra = "0.32"
serde = { version = "1", features = ["derive"] }
serde_json = "1"
thiserror = "1"
