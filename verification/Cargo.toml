[package]
name = "spray"
version = "0.1.0"
edition = "2021"
publish = false

[dependencies]
bs58 = "*"
serde = { version = "*", features = ["derive"] }
serde_json = "*"
serde_yaml = "*"
clap = { version = "*", features = ["derive"] }
anyhow = "*"
tokio = { version = "*", features = ["rt-multi-thread", "macros", "signal", "time", "sync"] }
tokio-stream = "*"
jsonrpsee = { version = "*", features = ["server"] }
tonic = { version = "*", features = ["tls-native-roots"] }
yellowstone-grpc-proto = "*"
tower = "*"
prometheus-client = "*"
tracing = "*"
tracing-subscriber = { version = "*", features = ["env-filter", "json"] }
