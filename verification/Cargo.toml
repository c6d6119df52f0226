[package]
name = "hft_orderbook_gateway"
version = "0.1.0"
edition = "2021"
publish = false

[dependencies]
ahash = "0.8"
arrayvec = "0.7"
byteorder = "1"
clap = { version = "4", features = ["derive"] }
crossbeam-queue = "0.3"
ctrlc = "3"
parking_lot = "0.12"
socket2 = { version = "0.5", features = ["all"] }
thiserror = "1"
tracing = "0.1"
tracing-subscriber = { version = "0.3", features = ["env-filter"] }
