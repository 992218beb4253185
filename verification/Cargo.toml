[package]
name = "world_pumpkin"
version = "0.1.0"
edition = "2021"
publish = false

[dependencies]
pumpkin-plugin-api = "=0.2.1"
serde_json = "=1.0.154"
tracing = "=0.1.44"
ureq = "=3.5.1"
