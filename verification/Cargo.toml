[package]
name = "shore"
version = "0.1.0"
edition = "2021"
publish = false

[dependencies]
rand = "=0.8.8"
uuid = { version = "=1.27.0", features = ["v4", "serde"] }
noise = "=0.9.0"
serde = { version = "1", features = ["derive"] }
serde_json = "1"
axum = "=0.8.9"
tokio = { version = "=1.53.2", features = ["rt-multi-thread", "macros", "net"] }
tower-http = { version = "=0.7.1", features = ["cors"] }
dotenv = "=0.15.0"
ttf-parser = "=0.25.1"
