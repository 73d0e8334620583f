[package]
name = "gdynya"
version = "0.1.0"
edition = "2021"
publish = false

[dependencies]
anyhow = "1"
async-trait = "0.1"
aws-config = "*"
aws-sdk-s3 = "*"
axum = "0.7"
axum-extra = { version = "0.9", features = ["typed-header"] }
cargo-credential = "*"
clap = { version = "4", features = ["derive", "env"] }
futures-util = "0.3"
headers = "0.4"
hex = "=0.4.3"
reqwest = { version = "0.12", default-features = false, features = ["json", "rustls-tls"] }
semver = { version = "=1.0.28", features = ["serde"] }
serde = { version = "1", features = ["derive"] }
serde_json = "1"
serde_yaml = "0.9"
sha2 = "=0.10.9"
tokio = { version = "1", features = ["macros", "rt-multi-thread", "signal", "fs", "net", "time"] }
tracing = "0.1"
tracing-subscriber = { version = "0.3", features = ["env-filter"] }
