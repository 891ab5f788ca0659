[package]
name = "csp_service"
version = "0.1.0"
edition = "2021"
publish = false

[dependencies]
async-trait = "=0.1.92"
axum = "=0.6.20"
base64 = "=0.21.7"
chrono = "=0.4.38"
deadpool = { version = "=0.9.5", features = ["rt_tokio_1"] }
deadpool-sync = "=0.1.4"
dotenv = "=0.15.0"
duckdb = { version = "=0.9.2", features = ["r2d2"] }
env_logger = "=0.10.2"
hmac = "=0.12.1"
lazy_static = "=1.5.1"
log = "=0.4.34"
r2d2 = "=0.8.10"
rand = "=0.8.8"
rusqlite = "=0.28.0"
serde = { version = "=1.0.229", features = ["derive"] }
sha2 = "=0.10.9"
tokio = { version = "=1.54.1", features = ["full"] }
