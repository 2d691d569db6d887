[package]
name = "polyorama"
version = "0.1.0"
edition = "2021"
publish = false

[dependencies]
lz4_flex = "*"
serde = { version = "1", features = ["derive"] }
serde_json = "1"
anyhow = "1"
