[package]
name = "fig_lite"
version = "0.1.0"
edition = "2021"
publish = false

[dependencies]
regex = "=1.13.1"
base64 = "=0.22.1"
tokio = { version = "=1.54.1", features = ["sync", "time", "rt", "macros"] }
tracing = "=0.1.44"
async-trait = "=0.1.92"
