[package]
name = "quote_stream"
version = "0.1.0"
edition = "2021"
publish = false

[dependencies]
rand = "=0.8.8"
serde = { version = "*", features = ["derive"] }
serde_json = "*"
tokio = { version = "=1.53.2", features = ["rt-multi-thread", "time", "macros", "sync"] }
tokio-tungstenite = "=0.30.0"
futures = "*"
futures-util = "*"

[dev-dependencies]
regex = "*"
