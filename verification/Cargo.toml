[package]
name = "concrete_core"
version = "0.1.0"
edition = "2021"
publish = false

[dependencies]
aes-soft = "0.6"
serde = { version = "1", features = ["derive"] }
