[package]
name = "projection"
version = "0.1.0"
edition = "2021"
publish = false

[dependencies]
caseless = "0.2"
unicode-normalization = "0.1"
serde_json = "1"
thiserror = "1"
tracing = "0.1"
url = "2"
