[package]
name = "luedd"
version = "0.1.0"
edition = "2021"
publish = false

[dependencies]
aes = "=0.8.4"
anyhow = "=1.0.104"
axum = "=0.8.9"
base64 = "=0.22.1"
cbc = "=0.1.2"
chrono = { version = "=0.4.45", default-features = false, features = ["clock"] }
clap = { version = "=4.6.7", default-features = false, features = ["std", "derive", "help", "usage", "error-context"] }
futures = "=0.3.34"
librqbit-core = { version = "=5.0.0", default-features = false, features = ["sha1-ring"] }
reqwest = { version = "=0.12.28", default-features = false, features = ["rustls-tls"] }
roxmltree = "=0.20.0"
serde = { version = "=1.0.229", features = ["derive"] }
serde_json = "=1.0.154"
tokio = { version = "=1.54.1", features = ["fs", "io-util", "io-std", "macros", "net", "process", "rt-multi-thread", "sync", "time"] }
tower-http = { version = "=0.6.11", features = ["cors"] }
tracing = "=0.1.44"
tracing-subscriber = { version = "=0.3.23", default-features = false, features = ["fmt"] }
url = "=2.5.8"
uuid = { version = "=1.29.0", features = ["v4"] }
