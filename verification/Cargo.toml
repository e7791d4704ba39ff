[package]
name = "relay_gateway"
version = "0.1.0"
edition = "2021"
publish = false

[dependencies]
serde = { version = "1", features = ["derive"] }
serde_json = "1"
serde_yaml = "0.9"
sha2 = "0.10"
base64 = "0.22"
ring = "0.17"
regex = "1"
reqwest = { version = "0.12", default-features = false }
uuid = { version = "1", features = ["v7"] }
fs2 = "0.4"
libc = "0.2"
log = { version = "0.4", features = ["kv"] }
tokio = { version = "1", features = ["rt-multi-thread", "macros", "sync", "time", "process", "signal", "io-util", "io-std"] }
clap = { version = "4", features = ["derive"] }
sysinfo = "*"
listeners = "*"
