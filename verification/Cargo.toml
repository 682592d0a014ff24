[package]
name = "sidecar_bridge"
version = "0.1.0"
edition = "2021"
publish = false

[dependencies]
serde_json = "*"
hostname = "*"
local-ip-address = "*"
