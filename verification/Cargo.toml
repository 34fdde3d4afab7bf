[package]
name = "wifi_discovery"
version = "0.1.0"
edition = "2021"
publish = false

[dependencies]
tokio = { version = "=1.53.2", features = ["sync", "time", "rt", "rt-multi-thread", "macros"] }
futures = "=0.3.34"
zbus = "=5.19.0"
