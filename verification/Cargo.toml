[package]
name = "nadir"
version = "0.1.0"
edition = "2021"
publish = false

[dependencies]
chrono = { version = "=0.4.45", features = ["serde"] }
unicode-width = "=0.2.2"
unicode-truncate = "=3.0.0"
serde = { version = "=1.0.229", features = ["derive"] }
serde_json = "=1.0.151"
serde_yaml = "=0.9.34"
tokio = { version = "=1.53.2", features = ["rt", "net", "time", "sync", "macros", "io-util"] }
tokio-tungstenite = "=0.30.0"
futures = "=0.3.34"
log = "=0.4.34"
maildir = "=0.6.6"
notify = "=8.2.0"
clap = { version = "=4.6.7", features = ["derive"] }
