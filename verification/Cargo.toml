[package]
name = "reqray"
version = "0.1.0"
edition = "2021"
publish = false

[dependencies]
quanta = "0.9"
tracing = "0.1"
tracing-subscriber = { version = "0.3", default-features = false, features = ["registry", "std"] }
