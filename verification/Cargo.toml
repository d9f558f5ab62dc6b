[package]
name = "a4"
version = "0.1.0"
edition = "2021"
publish = false

[dependencies]
chashmap = "2.2"
anyhow = "1"
num_cpus = "1"
thiserror = "1"
rand = "0.8"
serde = { version = "1", features = ["derive"] }
serde_json = "1"
