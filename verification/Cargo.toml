[package]
name = "moss"
version = "0.1.0"
edition = "2021"
publish = false

[dependencies]
minijinja = "2"
serde = { version = "1", features = ["derive"] }
serde_json = "1"
tokio = { version = "1", features = ["full"] }
reqwest = { version = "0.12", default-features = false, features = ["json", "rustls-tls"] }
async-trait = "0.1"
tracing = "0.1"
uuid = { version = "1", features = ["v4", "serde"] }
