[package]
name = "relay_core"
version = "0.1.0"
edition = "2021"
publish = false

[dependencies]
clap = "2"
futures = "0.1"
rosc = "0.1"
tokio-core = "0.1"
