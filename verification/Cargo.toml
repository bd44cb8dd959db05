[package]
name = "arksavefile"
version = "0.1.0"
edition = "2021"
publish = false

[dependencies]
base64 = "0.13"
regex = "1"
memmap = "0.7"
serde = { version = "1", features = ["derive"] }
serde_json = "1"
