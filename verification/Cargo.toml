[package]
name = "elbrus"
version = "0.1.0"
edition = "2021"
publish = false

[dependencies]
anyhow = "=1.0.104"
async-trait = "=0.1.92"
chrono = "=0.4.45"
clap = { version = "=4.6.7", features = ["derive"] }
futures = "=0.3.34"
rust_decimal = "=1.43.0"
serde = { version = "=1.0.229", features = ["derive"] }
serde_json = "=1.0.151"
sqlx = { version = "=0.9.0", features = ["sqlite", "runtime-tokio"] }
thiserror = "=2.0.21"
tokio = { version = "=1.53.2", features = ["rt-multi-thread", "macros", "sync"] }
uuid = { version = "=1.27.0", features = ["v4", "serde"] }
