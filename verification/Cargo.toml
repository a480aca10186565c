[package]
name = "tcpstack"
version = "0.1.0"
edition = "2021"
publish = false

[dependencies]
tun-tap = { version = "=0.1.4", default-features = false }
