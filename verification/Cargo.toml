[package]
name = "bpsr_tools"
version = "0.1.0"
edition = "2021"
publish = false

[dependencies]
zstd = "=0.13.4"
etherparse = "=0.21.0"
indexmap = "=2.14.2"
prost = "=0.13.5"
serde = { version = "=1.0.229", features = ["derive"] }
serde_json = "=1.0.154"
uuid = { version = "=1.29.0", features = ["v4", "serde"] }
chrono = { version = "=0.4.45", features = ["serde"] }
crossbeam-channel = "=0.5.17"
tracing = "=0.1.44"
tracing-subscriber = { version = "=0.3.23", features = ["env-filter"] }
anyhow = "=1.0.104"
thiserror = "=1.0.69"
once_cell = "=1.21.4"
dirs-next = "=2.0.0"
parking_lot = "=0.12.5"
bytes = "=1.12.1"
pcap = "=2.5.0"
rayon = "=1.12.0"
image = { version = "0.25", default-features = false, features = ["png"] }
tungstenite = "0.24"
