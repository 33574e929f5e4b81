[package]
name = "bootkeeper"
version = "0.1.0"
edition = "2021"
publish = false

[dependencies]
arc-swap = "1"
hostname = "*"
pwhash = "1"
rand = "0.8"
tokio = { version = "1", features = ["rt-multi-thread", "sync", "time", "macros"] }
tracing = "0.1"
tracing-appender = "*"
