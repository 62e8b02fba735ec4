[package]
name = "speed_cli"
version = "0.1.0"
edition = "2021"
publish = false

[dependencies]
tokio = { version = "*", features = ["full"] }
axum = "*"
axum-server = { version = "*", features = ["tls-rustls"] }
reqwest = { version = "*", default-features = false, features = ["rustls-tls", "stream", "http2"] }
rustls = "*"
rcgen = "*"
serde = { version = "*", features = ["derive"] }
serde_json = "*"
ciborium = "*"
chrono = { version = "*", features = ["serde"] }
clap = { version = "*", features = ["derive"] }
indexmap = { version = "*", features = ["serde"] }
rand = "*"
futures = "*"
eyre = "*"
thiserror = "*"
colored = "*"
indicatif = "*"
humansize = "*"
num-format = "*"
tracing = "*"
tracing-subscriber = { version = "*", features = ["env-filter"] }
num_cpus = "*"
parking_lot = "*"
bytes = "*"
tower-http = { version = "*", features = ["cors"] }
