[package]
name = "astrum"
version = "0.1.0"
edition = "2021"
publish = false

[dependencies]
base64 = "0.22"
dotenvy = "0.15"
image = { version = "0.25", default-features = false, features = ["png"] }
poise = "0.6"
reqwest = { version = "0.12", default-features = false, features = ["json", "multipart", "rustls-tls"] }
serde = { version = "1", features = ["derive"] }
serde_json = "1"
tokio = { version = "1", features = ["full"] }
tracing = "0.1"
tracing-subscriber = { version = "0.3", features = ["env-filter"] }
