[package]
name = "jute"
version = "0.1.0"
edition = "2021"
publish = false

[dependencies]
serde_json = "*"
url = "*"
time = { version = "*", features = ["parsing"] }
reqwest = { version = "*", default-features = false }
tokio = { version = "*", features = ["rt", "fs"] }
dashmap = "*"
sysinfo = "*"
tracing = "*"
