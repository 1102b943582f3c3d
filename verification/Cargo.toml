[package]
name = "near_dns"
version = "0.1.0"
edition = "2021"
publish = false

[dependencies]
async-trait = "0.1"
clap = { version = "4", features = ["derive"] }
hickory-proto = "0.25"
hickory-resolver = "0.25"
hickory-server = "0.25"
moka = { version = "0.12", features = ["future"] }
near-sdk = "5"
serde = { version = "1", features = ["derive"] }
serde_json = "1"
thiserror = "2"
tokio = { version = "1", features = ["full"] }
tracing = "0.1"
tracing-subscriber = { version = "0.3", features = ["env-filter"] }
url = "2"

[dev-dependencies]
near-sdk = { version = "5", features = ["unit-testing"] }
