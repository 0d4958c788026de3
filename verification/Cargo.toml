[package]
name = "relay_limits"
version = "0.1.0"
edition = "2021"
publish = false

[dependencies]
smallvec = "1"
fnv = "1"
chrono = { version = "0.4", default-features = false, features = ["clock", "std"] }
tokio = { version = "1", features = ["rt", "time", "sync", "macros"] }
