[package]
name = "light-robot-core"
version = "0.1.0"
edition = "2021"
publish = false

[dependencies]
embedded-hal = "1.0"
serde = { version = "1", features = ["derive"] }
serde_json = "1"
