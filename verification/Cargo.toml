[package]
name = "miawk"
version = "0.1.0"
edition = "2021"
publish = false

[dependencies]
base64 = "=0.22.1"
dirs = "=6.0.0"
flate2 = "=1.1.10"
tar = "=0.4.46"
serde = { version = "=1.0.229", features = ["derive"] }
serde_json = "=1.0.154"
tokio = { version = "=1.54.1", features = ["rt-multi-thread", "macros", "process", "sync", "time", "net", "io-util"] }
futures-util = "=0.3.34"
tokio-tungstenite = "=0.30.0"
reqwest = { version = "=0.12.28", default-features = false, features = ["json", "rustls-tls"] }
pulldown-cmark = { version = "=0.13.6", default-features = false, features = ["html"] }
ammonia = "=4.2.4"
