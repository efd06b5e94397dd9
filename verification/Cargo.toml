[package]
name = "surveillance"
version = "0.1.0"
edition = "2021"
publish = false

[dependencies]
anyhow = "=1.0.104"
async-trait = "=0.1.92"
chrono = "=0.4.45"
fastrand = "=2.5.0"
futures = "=0.3.34"
native-tls = "0.2"
polars = { version = "=0.40.0", default-features = false, features = ["lazy", "parquet"] }
regex = "=1.13.1"
reqwest = { version = "0.12", default-features = false, features = ["json", "native-tls"] }
serde = { version = "=1.0.229", features = ["derive"] }
serde_json = "=1.0.154"
sha2 = "=0.10.9"
tokio = { version = "=1.54.1", features = ["full"] }
tokio-native-tls = "0.3"
tokio-tungstenite = { version = "0.21", features = ["native-tls"] }
toml = "=0.8.23"
tracing = "=0.1.44"
tracing-subscriber = { version = "=0.3.23", features = ["env-filter"] }
url = "2"
