[package]
name = "ghost-nas"
version = "0.2.0"
edition = "2021"
publish = false

[dependencies]
axum = { version = "0.7", features = ["ws"] }
blake3 = "1"
chrono = "0.4"
clap = { version = "4", features = ["derive"] }
directories = "5"
ed25519-dalek = "2"
hex = "0.4"
if-addrs = "0.13"
pqcrypto-kyber = "0.8"
pqcrypto-traits = "0.3"
rand = "0.8"
reed-solomon-erasure = "6"
reqwest = { version = "0.12", default-features = false, features = ["json", "rustls-tls"] }
ring = "0.17"
serde = { version = "1", features = ["derive"] }
serde_json = "1"
thiserror = "1"
tokio = { version = "1", features = ["full"] }
toml = "0.8"
tower-http = { version = "0.5", features = ["cors", "fs"] }
tracing = "0.1"
tracing-subscriber = { version = "0.3", features = ["env-filter"] }
x25519-dalek = "2"
zeroize = { version = "1", features = ["derive"] }
