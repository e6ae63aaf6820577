[package]
name = "bittuly"
version = "0.1.0"
edition = "2021"
publish = false

[dependencies]
async-trait = "=0.1.92"
axum = "=0.8.9"
base62 = "=2.2.6"
bcrypt = "=0.17.1"
chrono = { version = "=0.4.45", features = ["serde"] }
deadpool-lapin = "=0.12.1"
dotenvy = "=0.15.7"
futures-lite = "=2.6.1"
jsonwebtoken = "=9.3.1"
lapin = "=2.5.5"
lettre = { version = "=0.11.23", default-features = false, features = ["builder", "smtp-transport", "tokio1", "tokio1-rustls-tls"] }
metrics = "=0.24.6"
metrics-exporter-prometheus = { version = "=0.17.2", default-features = false }
moka = { version = "=0.12.16", features = ["future"] }
rand = "=0.9.5"
redis = { version = "=0.32.7", default-features = false, features = ["tokio-comp", "connection-manager"] }
serde = { version = "=1.0.229", features = ["derive"] }
serde_json = { version = "=1.0.154", features = ["preserve_order"] }
sqlx = { version = "=0.8.6", default-features = false, features = ["postgres", "runtime-tokio", "uuid", "chrono", "derive"] }
tokio = { version = "=1.54.1", features = ["full"] }
tower = "=0.5.3"
tower-http = { version = "=0.6.11", features = ["cors", "trace", "normalize-path"] }
tracing = "=0.1.44"
tracing-subscriber = { version = "=0.3.23", features = ["env-filter"] }
uuid = { version = "=1.29.0", features = ["v4", "serde"] }
validator = "=0.20.0"
