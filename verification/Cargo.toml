[package]
name = "sysrs"
version = "0.1.0"
edition = "2021"
publish = false

[dependencies]
async-trait = "0.1"
futures = "0.3"
futures-util = "0.3"
notify = "6"
rustix = { version = "0.38", features = ["fs", "mount", "process"] }
serde = { version = "1", features = ["derive"] }
tap = "1"
tokio = { version = "1", features = ["full"] }
tokio-stream = { version = "0.1", features = ["io-util"] }
toml = "0.8"
zbus = { version = "3", default-features = false, features = ["tokio"] }
