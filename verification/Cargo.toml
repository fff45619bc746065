[package]
name = "hafox"
version = "0.1.0"
edition = "2021"
publish = false

[dependencies]
quick-xml = "0.38"
serde = { version = "1", features = ["derive"] }
serde_json = "1"
url = "2"
reqwest = { version = "0.12", default-features = false }
rumqttc = { version = "*", default-features = false }
tokio = { version = "1", features = ["macros", "rt-multi-thread", "time"] }
clap = { version = "4", features = ["derive", "env"] }
humantime = "2"
tracing = "0.1"
tracing-subscriber = { version = "0.3", features = ["env-filter", "fmt"] }
anyhow = "1"
thiserror = "2"
