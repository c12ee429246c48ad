[package]
name = "intershare_sdk"
version = "0.1.0"
edition = "2021"
publish = false

[dependencies]
base64 = "0.22"
rand_core = { version = "0.6", features = ["getrandom"] }
regex = "1"
url = "2"
rustls = "0.23"
ring = "0.17"
local-ip-address = "0.6"
uuid = { version = "1", features = ["v4"] }
fast_qr = { version = "0.12", features = ["image"] }
log = "0.4"
tokio = { version = "1", features = ["rt", "rt-multi-thread", "sync", "time", "macros"] }
