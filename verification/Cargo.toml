[package]
name = "stream_patterns"
version = "0.1.0"
edition = "2021"
publish = false

[dependencies]
async-channel = "=1.9.0"
futures-util = { version = "=0.3.34", features = ["sink"] }
rand = "=0.8.8"
ruchei = { version = "=0.1.2", features = ["unstable"] }

[dev-dependencies]
futures-channel = { version = "=0.3.34", features = ["sink"] }
