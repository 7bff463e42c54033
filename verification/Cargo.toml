[package]
name = "opentelemetry"
version = "0.1.0"
edition = "2021"
publish = false

[dependencies]
http = "0.2"
percent-encoding = "2.1"
tonic = { version = "0.3", default-features = false }
