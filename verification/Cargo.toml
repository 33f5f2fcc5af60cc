[package]
name = "alas_launcher"
version = "0.1.0"
edition = "2021"
publish = false

[dependencies]
anyhow = "*"
base64 = "*"
command-group = "*"
openssl-probe = "*"
serde_json = "*"
serde_yaml = "*"
sysinfo = "*"
tracing = "*"
tracing-subscriber = "*"
