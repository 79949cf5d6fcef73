[package]
name = "tarpc-fory"
version = "0.1.0"
edition = "2021"

[dependencies]
fory = "=0.17.0"
futures = "=0.3.34"
pin-project = "=1.1.13"
serde = { version = "=1.0.229", features = ["derive"] }
tarpc = { version = "=0.37.0", features = ["serde-transport", "serde1", "tcp"] }
tokio = { version = "=1.54.1", features = ["net", "sync", "time", "rt", "io-util"] }
tokio-rustls = { version = "=0.26.6", default-features = false, features = ["logging", "tls12"] }
tokio-serde = "=0.9.0"
tokio-util = { version = "=0.7.20", features = ["codec"] }
