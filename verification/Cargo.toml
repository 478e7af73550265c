[package]
name = "spectacles_proxy"
version = "0.1.0"
edition = "2021"
publish = false

[dependencies]
tokio = { version = "*", features = ["rt-multi-thread", "macros", "sync", "time", "signal"] }
reqwest = { version = "*", default-features = false }
redust = "*"
serde = { version = "*", features = ["derive"] }
toml = "*"
humantime = "*"
