[package]
name = "perf_sight"
version = "0.1.0"
edition = "2021"
publish = false

[dependencies]
regex = "*"
serde = { version = "1", features = ["derive"] }
serde_json = "1"
sysinfo = "0.30"
tungstenite = "*"
url = "2"
chrono = "0.4"
