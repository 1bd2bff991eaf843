[package]
name = "yakd"
version = "0.1.0"
edition = "2021"
publish = false

[dependencies]
blake3 = "*"
rand = "0.8"
tokio = { version = "*", features = ["rt-multi-thread", "macros", "sync"] }
nfsserve = "*"
async-trait = "*"
anyhow = "*"
clap = { version = "*", features = ["derive"] }
serde = { version = "*", features = ["derive"] }
toml = "*"
parking_lot = "*"
