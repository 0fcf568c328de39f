[package]
name = "iroh-h3-client"
version = "0.1.0"
edition = "2021"
publish = false

[dependencies]
axum = "=0.8.9"
bytes = "=1.12.1"
cookie = { version = "=0.18.2", features = ["percent-encode"] }
dashmap = "=6.2.1"
futures = "=0.3.34"
futures-lite = "=2.6.1"
h3 = "=0.0.8"
http = "=1.5.0"
http-body = "=1.1.0"
http-body-util = "=0.1.5"
iroh = { version = "=1.4.1", default-features = false, features = ["tls-ring"] }
iroh-h3 = "=0.3.0"
n0-future = "=0.3.2"
serde = { version = "=1.0.229", features = ["derive"] }
serde_json = "=1.0.154"
thiserror = "=2.0.21"
tokio = { version = "=1.54.1", features = ["macros", "rt-multi-thread"] }
tower-service = "=0.3.3"
tracing = "=0.1.44"

[dev-dependencies]
h3 = { version = "=0.0.8", features = ["i-implement-a-third-party-backend-and-opt-into-breaking-changes"] }
