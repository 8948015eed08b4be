[package]
name = "utilify"
version = "0.1.0"
edition = "2021"
publish = false

[dependencies]
rand = "=0.9.5"
sha2 = "=0.10.9"
base64 = "=0.22.1"
url = "=2.5.8"
chrono = "=0.4.45"
serde = { version = "=1.0.229", features = ["derive"] }
serde_json = "=1.0.154"
zip = { version = "=2.6.1", default-features = false, features = ["deflate"] }
reqwest = { version = "0.12", default-features = false, features = ["json", "rustls-tls"] }
tokio = { version = "1", features = ["rt", "time", "sync", "macros"] }
rusqlite = { version = "0.32", features = ["bundled"] }
tiny_http = "0.12"
log = "0.4"
