[package]
name = "parcello"
version = "0.1.0"
edition = "2021"
publish = false

[dependencies]
serde = { version = "1", features = ["derive"] }
serde_json = "1"
toml = "*"
thiserror = "*"
tracing = "*"
anyhow = "1"
clap = { version = "4", features = ["derive"] }
tokio = { version = "1", features = ["macros", "rt", "io-std", "io-util", "time", "net"] }
tokio-tungstenite = "*"
futures-util = { version = "*", features = ["sink"] }
