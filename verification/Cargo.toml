[package]
name = "mock_eth_provider"
version = "0.1.0"
edition = "2021"
publish = false

[dependencies]
alloy-consensus = { version = "0.15", features = ["k256"] }
alloy-eips = "0.15"
alloy-primitives = { version = "=1.7.3", features = ["map-foldhash"] }
parking_lot = "=0.12.5"
revm-bytecode = "=3.0.0"
revm-database = "=3.0.0"
tokio = { version = "=1.54.1", features = ["sync"] }
