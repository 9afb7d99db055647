[package]
name = "mini_env"
version = "0.1.0"
edition = "2021"
publish = false

[dependencies]
axum = "0.7"
dashmap = "*"
serde = { version = "1", features = ["derive"] }
serde_json = "1"
tokio = { version = "1", features = ["macros", "rt-multi-thread", "net"] }
tracing = "0.1"
tracing-subscriber = "0.3"
uuid = { version = "1", features = ["v4"] }
