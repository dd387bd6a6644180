[package]
name = "livekit_portal"
version = "0.1.0"
edition = "2021"
publish = false

[dependencies]
image = { version = "0.25", default-features = false, features = ["png", "jpeg"] }
dashmap = "6"
parking_lot = "0.12"
tokio = { version = "1", features = ["rt", "rt-multi-thread", "sync", "macros", "time"] }
log = "0.4"
thiserror = "1"
futures-util = "0.3"
async-trait = "0.1"
uniffi = { version = "*", features = ["tokio"] }
livekit = "*"
yuv-sys = "*"
