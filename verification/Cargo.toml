[package]
name = "wifi-densepose-tactical"
version = "0.3.0"
edition = "2021"
publish = false

[dependencies]
axum = { version = "=0.7.9", default-features = false, features = ["http1", "json", "tokio", "ws"] }
chrono = { version = "=0.4.45", features = ["serde"] }
jni = { version = "0.22", default-features = false }
serde = { version = "=1.0.229", features = ["derive"] }
serde_json = "=1.0.154"
thiserror = "=1.0.69"
tokio = { version = "=1.54.1", features = ["full"] }
tower-http = { version = "=0.6.11", default-features = false, features = ["cors"] }
ureq = { version = "=2.12.1", default-features = false, features = ["json"] }
uuid = { version = "=1.29.0", features = ["v4", "serde"] }
wifi-densepose-hardware = { version = "=0.1.0", default-features = false }
wifi-densepose-mat = { version = "=0.3.2", default-features = false }
