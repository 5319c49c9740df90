[package]
name = "slot_observer"
version = "0.1.0"
edition = "2021"
publish = false

[dependencies]
anyhow = "=1.0.104"
dotenvy = "=0.15.7"
futures-util = "=0.3.34"
solana-sdk = { version = "=2.3.1", default-features = false, features = ["full"] }
solana-transaction-status = "=2.3.13"
tokio = { version = "=1.54.1", features = ["macros", "rt-multi-thread", "time"] }
tokio-postgres = "=0.7.18"
