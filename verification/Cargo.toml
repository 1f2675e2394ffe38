[package]
name = "trace_viewer"
version = "0.1.0"
edition = "2021"
publish = false

[dependencies]
zip = "*"
serde_json = "*"
base64 = "*"
chrono = "*"
