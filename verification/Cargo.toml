[package]
name = "rustimenator"
version = "0.1.0"
edition = "2021"
publish = false

[dependencies]
chrono = "0.4"
axum = "0.8"
tokio = { version = "1", features = ["rt-multi-thread", "macros", "net"] }
serde = { version = "1", features = ["derive"] }
