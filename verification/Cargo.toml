[package]
name = "p2p"
version = "0.1.0"
edition = "2021"
publish = false

[dependencies]
serde_json = "=1.0.154"
threadpool = "=1.8.1"
