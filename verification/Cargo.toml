[package]
name = "launchvault_core"
version = "0.1.7"
edition = "2021"
publish = false

[dependencies]
dirs = "6"
serde = { version = "1", features = ["derive"] }
serde_json = "1"
ureq = "3"
uuid = { version = "1", features = ["v4"] }
