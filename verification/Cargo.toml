[package]
name = "bdk_testenv"
version = "0.1.0"
edition = "2021"
publish = false

[dependencies]
bdk_chain = "=0.23.3"
bdk_esplora = { version = "=0.22.2", features = ["blocking"] }
bdk_wallet = { version = "=3.2.0", features = ["rusqlite"] }
electrsd = { version = "=0.31.0", default-features = false }
serde = { version = "=1.0.229", features = ["derive"] }
