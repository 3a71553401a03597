[package]
name = "dxgate"
version = "0.1.0"
edition = "2021"
publish = false

[dependencies]
axum = "0.6"
http = "0.2"
hyper = { version = "0.14", features = ["client", "http1", "tcp", "runtime"] }
hyper-rustls = "0.24"
prost = "0.12"
prost-types = "0.12"
rustls = { version = "0.21", features = ["dangerous_configuration"] }
rustls-pemfile = "1"
serde = { version = "1", features = ["derive"] }
serde_json = "1"
thiserror = "1"
tokio = { version = "1", features = ["sync", "time", "rt"] }
tokio-stream = "0.1"
tonic = "0.11"
tracing = "0.1"

[dev-dependencies]
rcgen = "0.11"
