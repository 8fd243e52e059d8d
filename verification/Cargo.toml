[package]
name = "stream_race"
version = "0.1.0"
edition = "2021"
publish = false

[dependencies]
bs58 = "*"
bincode = "*"
futures-util = "*"
lazy_static = "*"
log = "*"
tokio = { version = "*", features = ["macros", "rt-multi-thread", "sync", "time"] }
tonic = "*"
yellowstone-grpc-client = "*"
yellowstone-grpc-proto = "*"
