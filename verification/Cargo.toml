[package]
name = "consolidate"
version = "0.1.0"
edition = "2021"
publish = false

[dependencies]
yaml-rust = "*"
serde = { version = "*", features = ["derive"] }
serde_yaml = "*"
threadpool = "*"
num_cpus = "*"
