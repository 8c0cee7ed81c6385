[package]
name = "sv2_tx_generator"
version = "0.1.0"
edition = "2021"
publish = false

[dependencies]
anyhow = "1"
bdk_bitcoind_rpc = "0.20"
bdk_wallet = { version = "2", features = ["rusqlite", "keys-bip39"] }
serde = { version = "1", features = ["derive"] }
tokio = { version = "1", features = ["macros", "rt-multi-thread", "time"] }
toml = "0.8"
tracing = "0.1"
tracing-subscriber = { version = "0.3", features = ["env-filter"] }
