[package]
name = "otap_tools"
version = "0.1.0"
edition = "2021"
publish = false

[dependencies]
arrow-array = "*"
arrow-buffer = "*"
arrow-cast = "*"
arrow-ipc = "*"
arrow-schema = "*"
arrow-select = "*"
rand = "*"
serde = { version = "1", features = ["derive"] }
serde_json = "1"
tokio = { version = "1", features = ["rt", "time", "sync"] }
humantime-serde = "1"
