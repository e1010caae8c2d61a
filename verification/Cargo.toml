[package]
name = "self_evolving_memory"
version = "0.1.0"
edition = "2021"
publish = false

[dependencies]
uuid = { version = "=1.29.0", features = ["v4", "serde"] }
chrono = { version = "=0.4.45", features = ["serde"] }
base64 = "=0.21.7"
serde = { version = "=1.0.229", features = ["derive"] }
serde_json = "=1.0.154"
tokio = { version = "=1.54.1", features = ["full"] }
axum = "=0.6.20"
tower-http = { version = "=0.4.4", features = ["cors"] }
async-trait = "=0.1.92"
reqwest = { version = "=0.11.27", default-features = false, features = ["json", "rustls-tls"] }
sqlx = { version = "=0.7.4", default-features = false, features = ["runtime-tokio", "tls-rustls", "postgres", "sqlite", "uuid", "chrono", "json"] }
dotenvy = "=0.15.7"
env_logger = { version = "=0.10.2", default-features = false }
