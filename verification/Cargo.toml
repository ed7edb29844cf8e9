[package]
name = "device_connect_edge"
version = "0.1.0"
edition = "2021"
publish = false

[dependencies]
serde_json = "1"
uuid = { version = "1", features = ["v4"] }
time = { version = "0.3", features = ["formatting"] }
serde = { version = "1", features = ["derive"] }
schemars = "*"
thiserror = "*"
tokio = { version = "1", features = ["sync", "time", "rt", "macros"] }
async-trait = "0.1"
futures = "0.3"
tracing = "0.1"
