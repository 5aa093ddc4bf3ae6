[package]
name = "quic"
version = "0.1.0"
edition = "2021"
publish = false

[dependencies]
bytes = "1"
tinyvec = { version = "1", features = ["alloc"] }
rustls = { version = "0.21", features = ["quic"] }
ring = "0.16"
quiche = "0.9"
tokio = { version = "1", features = ["net", "time", "rt", "io-util", "macros"] }
futures = "0.3"
parking_lot = "0.11"
log = "0.4"
thiserror = "1"
