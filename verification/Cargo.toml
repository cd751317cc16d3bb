[package]
name = "deckr-mirabox-manager"
version = "0.1.0"
edition = "2021"
publish = false

[dependencies]
anyhow = "1"
async-nats = "0.46"
base64 = "0.22"
chrono = "0.4"
clap = { version = "4", features = ["derive", "env"] }
futures-util = "0.3"
hidapi = { version = "2", default-features = false, features = ["linux-native-basic-udev"] }
regex = "1"
serde = { version = "1", features = ["derive"] }
serde_json = "1"
serde_yaml = "0.9"
tokio = { version = "1", features = ["full"] }
tracing = "0.1"
tracing-subscriber = { version = "0.3", features = ["env-filter"] }
uuid = { version = "1", features = ["v4"] }
