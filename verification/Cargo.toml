[package]
name = "workspace"
version = "0.1.0"
edition = "2021"
publish = false

[dependencies]
anyhow = "1.0"
futures = "0.3"
itertools = "0.10"
lazy_static = "1.4"
log = "0.4"
postage = { version = "0.5", features = ["futures-traits"] }
serde = { version = "1.0", features = ["derive", "rc"] }
uuid = "1"
