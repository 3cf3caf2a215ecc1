[package]
name = "gecko_marketdata"
version = "0.1.0"
edition = "2021"
publish = false

[dependencies]
parking_lot = "=0.12.5"
serde_json = "=1.0.151"
lazy_static = "=1.5.1"
