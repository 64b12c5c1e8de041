[package]
name = "ides"
version = "0.1.0"
edition = "2021"
publish = false

[dependencies]
ammonia = "=4.2.1"
aws-lc-rs = "=1.18.1"
axum = "=0.8.9"
base64 = "=0.23.1"
chrono = "=0.4.45"
chrono-tz = "=0.10.4"
clap = { version = "=4.6.7", features = ["derive"] }
dotenvy = "=0.15.7"
http = "=1.5.0"
serde = { version = "=1.0.229", features = ["derive"] }
sqlx = { version = "=0.9.0", default-features = false, features = ["chrono", "postgres", "runtime-tokio"] }
tokio = { version = "=1.53.2", features = ["macros", "net", "rt-multi-thread"] }
