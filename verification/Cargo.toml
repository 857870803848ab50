[package]
name = "evtx_timeline"
version = "0.1.0"
edition = "2021"
publish = false

[dependencies]
chrono = "*"
regex = "*"
evtx = "*"
serde = "*"
serde_derive = "*"
serde_json = "*"
hhmmss = "*"
pbr = "*"
tokio = { version = "*", features = ["rt", "rt-multi-thread"] }
