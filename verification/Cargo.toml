[package]
name = "wombatkv"
version = "0.1.0"
edition = "2021"
publish = false

[dependencies]
anyhow = "=1.0.104"
blake3 = "=1.8.7"
bytes = "=1.12.1"
clap = { version = "=4.6.7", features = ["derive"] }
compio = { version = "=0.19.2", features = ["io", "net", "runtime", "time"] }
crc32c = "=0.6.9"
flume = "=0.11.1"
futures = "=0.3.34"
libc = "=0.2.191"
memmap2 = "=0.9.12"
myelon = "=0.1.0-alpha.2"
rkyv = "=0.8.18"
serde = { version = "=1.0.229", features = ["derive"] }
serde_json = "=1.0.154"
socket2 = { version = "=0.5.10", features = ["all"] }
thiserror = "=2.0.21"

[dev-dependencies]
tempfile = "=3.27.0"
