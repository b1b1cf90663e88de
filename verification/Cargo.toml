[package]
name = "meatshell"
version = "0.5.0"
edition = "2021"
publish = false

[dependencies]
anyhow = "1"
arboard = { version = "3", default-features = false }
directories = "*"
fontdb = "0.23"
parking_lot = "0.12"
serde_json = "1"
slint = { version = "1", default-features = false, features = ["compat-1-2", "std"] }
tokio = { version = "1", features = ["rt", "rt-multi-thread", "sync", "time"] }
tracing = "0.1"
unicode-width = "*"
ureq = "2"
uuid = { version = "1", features = ["v4"] }
vt100 = "0.15"
