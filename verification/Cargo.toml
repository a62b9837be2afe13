[package]
name = "dlmgr"
version = "0.1.0"
edition = "2021"
publish = false

[dependencies]
anyhow = "1"
async-trait = "0.1"
atomic-write-file = "*"
axum = "0.8"
axum-extra = { version = "0.10", features = ["typed-header"] }
axum-range = "*"
clap = { version = "4", features = ["derive"] }
hex = "0.4"
indicatif = "*"
portpicker = "0.1"
rand = "0.9"
reqwest = { version = "0.12", default-features = false }
sha2 = "0.10"
tempfile = "3"
thiserror = "2"
tokio = { version = "1", features = ["full"] }
tracing = "0.1"
tracing-subscriber = "0.3"
url = "2"
