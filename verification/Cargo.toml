[package]
name = "cheddar_core"
version = "0.1.0"
edition = "2021"
publish = false

[dependencies]
uuid = { version = "=1.27.0", features = ["v4"] }
chrono = "=0.4.45"
rcgen = { version = "=0.13.2", features = ["pem", "x509-parser"] }
rustls = "=0.23.45"
time = "=0.3.55"
tokio = { version = "=1.53.2", features = ["rt-multi-thread", "net", "io-util", "time", "sync", "macros"] }
tokio-rustls = "=0.26.6"
webpki-roots = "=0.26.11"
rusqlite = { version = "=0.32.1", features = ["bundled"] }
serde = { version = "=1.0.229", features = ["derive"] }
serde_json = "=1.0.151"
anyhow = "=1.0.104"
gethostname = "=0.5.0"
