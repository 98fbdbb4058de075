[package]
name = "fauxmail"
version = "0.1.0"
edition = "2021"
publish = false

[dependencies]
axum = "*"
base64 = "*"
chrono = { version = "*", features = ["serde"] }
mailparse = "*"
serde = { version = "*", features = ["derive"] }
serde_json = "*"
sqlx = { version = "*", features = ["runtime-tokio", "sqlite", "chrono", "uuid"] }
tokio = { version = "*", features = ["full"] }
tracing = "*"
tracing-subscriber = { version = "*", features = ["env-filter"] }
uuid = { version = "*", features = ["v4", "serde"] }
