[package]
name = "mux_core"
version = "0.1.0"
edition = "2021"
publish = false

[dependencies]
anyhow = "*"
async-trait = "*"
clap = { version = "*", features = ["derive"] }
futures = "*"
serde = { version = "*", features = ["derive"] }
serde_json = "*"
serde_yaml = "*"
tokio = { version = "*", features = ["full"] }
tokio-tungstenite = "*"
tokio-util = { version = "*", features = ["codec"] }
tracing = "*"
tracing-subscriber = { version = "*", features = ["env-filter", "fmt"] }
