[package]
name = "conduit_core"
version = "0.1.0"
edition = "2021"
publish = false

[dependencies]
hickory-proto = "=0.24.4"
serde_json = "1"
