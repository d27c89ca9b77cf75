[package]
name = "restreamer"
version = "0.1.0"
edition = "2021"
publish = false

[dependencies]
anyhow = "1"
futures = "0.3"
futures-signals = "0.3"
juniper = "0.15"
serde = { version = "1", features = ["derive"] }
serde_json = "1"
tokio = { version = "1", features = ["fs", "io-util", "rt"] }
url = "2"
uuid = { version = "0.8", features = ["v4"] }

[dev-dependencies]
regex = "1"
