[package]
name = "mermaidman"
version = "0.1.0"
edition = "2021"
publish = false

[dependencies]
uuid = { version = "=1.27.0", features = ["v4"] }
base64 = "=0.22.1"
