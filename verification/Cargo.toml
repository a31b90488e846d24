[package]
name = "tinysocks"
version = "0.1.0"
edition = "2021"
publish = false

[dependencies]
anyhow = "1"
base64 = "0.22"
clap = { version = "4", features = ["derive", "env"] }
http = "1"
httparse = "1"
ipnet = "2"
subtle = "2"
tokio = { version = "1", features = ["full"] }
