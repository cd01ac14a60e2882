[package]
name = "kritor_agent"
version = "0.1.0"
edition = "2021"
publish = false

[dependencies]
base64 = "=0.23.1"
infer = "=0.22.0"
serde = { version = "*", features = ["derive"] }
serde_json = "*"
serde_repr = "*"
toml = "*"
clap = "*"
log = "*"
env_logger = "*"
anyhow = "*"
url = "*"
reqwest = { version = "*", default-features = false, features = ["json"] }
tokio = { version = "*", features = ["macros", "rt-multi-thread", "time", "sync", "net", "signal"] }
tokio-stream = { version = "*", features = ["sync"] }
tokio-tungstenite = "*"
futures-util = "*"
