[package]
name = "narwhal_primary"
version = "0.1.0"
edition = "2021"
publish = false

[dependencies]
futures = "=0.3.34"
indexmap = "=2.14.2"
parking_lot = "=0.12.5"
rand = "=0.8.8"
snarkvm = { version = "=4.6.4", default-features = false, features = ["console", "ledger"] }
time = "=0.3.55"
tokio = { version = "=1.54.1", features = ["rt-multi-thread", "sync", "time"] }
