[package]
name = "buffa"
version = "0.1.0"
edition = "2021"
publish = false

[dependencies]
bytes = "1"
serde = "=1.0.229"
serde_json = "=1.0.154"
thiserror = "=2.0.21"
