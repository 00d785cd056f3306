[package]
name = "network_discover"
version = "0.1.0"
edition = "2021"
publish = false

[dependencies]
xml-rs = "=1.0.0"
serde_json = "=1.0.151"
chrono = "=0.4.45"
serde = { version = "=1.0.229", features = ["derive"] }
confy = "=2.0.0"
uuid = { version = "=1.27.0", features = ["v4"] }
pcap = "=2.5.0"
