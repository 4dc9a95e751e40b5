[package]
name = "redis_streams"
version = "0.1.0"
edition = "2021"

[dependencies]
redis = { version = "*", default-features = false }

[dev-dependencies]
itertools = "*"
