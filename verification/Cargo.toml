[package]
name = "ollama_relay"
version = "0.1.0"
edition = "2021"
publish = false

[dependencies]
chrono = "*"
axum = "*"
tokio = { version = "*", features = ["full"] }
reqwest = { version = "*", default-features = false, features = ["stream"] }
futures = "*"
tokio-stream = "*"
tower-http = { version = "*", features = ["cors"] }
serde = { version = "*", features = ["derive"] }

[dev-dependencies]
serde_json = "*"
