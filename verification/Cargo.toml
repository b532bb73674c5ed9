[package]
name = "mdnssdpd"
version = "0.1.0"
edition = "2021"
publish = false

[dependencies]
anyhow = "1"
chrono = "0.4"
clap = { version = "4", features = ["derive"] }
crossbeam-channel = "0.5"
hickory-proto = "=0.25.2"
jaq-core = "=3.1.2"
jaq-json = { version = "=2.0.3", features = ["serde"] }
jaq-std = "=3.0.4"
network-interface = "2"
regex = "=1.13.1"
serde = { version = "1", features = ["derive"] }
serde_json = { version = "=1.0.154", features = ["float_roundtrip", "unbounded_depth"] }
socket2 = { version = "0.5", features = ["all"] }
toml = "0.8"
