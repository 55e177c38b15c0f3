[package]
name = "keryx-miner"
version = "0.1.0"
edition = "2021"
publish = false

[dependencies]
candle-core = "0.9"
candle-metal-kernels = "0.9"
log = "0.4"
metal = "*"
objc2-metal = "*"
tokio = { version = "1", features = ["rt-multi-thread", "macros", "sync", "time"] }
tokio-stream = "0.1"
tonic = "0.12"
