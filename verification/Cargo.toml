[package]
name = "cortex_client"
version = "0.1.0"
edition = "2021"
publish = false

[dependencies]
clap = { version = "=4.6.7", features = ["derive"] }
rmp = "=0.8.15"
rmpv = "=1.3.1"
serde_json = "=1.0.154"
