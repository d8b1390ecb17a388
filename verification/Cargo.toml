[package]
name = "homemon"
version = "0.1.0"
edition = "2021"
publish = false

[dependencies]
axum = { version = "0.8", default-features = false, features = ["query", "tokio"] }
bincode = { version = "2", default-features = false, features = ["std", "serde"] }
blake3 = "1"
compio = { version = "*", features = ["fs", "process", "time", "net", "runtime", "io"] }
cyper-axum = { version = "*", default-features = false }
futures-util = "0.3"
lru = "*"
nvml-wrapper = "*"
serde = { version = "1", features = ["derive"] }
serde_json = "1"
sysinfo = { version = "*", default-features = false, features = ["component", "disk", "system", "serde"] }
tapo = { version = "0.8", default-features = false }
tempfile = "3"
time = { version = "0.3", features = ["serde"] }
tokio = { version = "1", features = ["rt", "time"] }
triomphe = { version = "0.1", default-features = false, features = ["std", "serde"] }
