[package]
name = "pretty_json"
version = "0.1.0"
edition = "2021"
publish = false

[dependencies]
clap = "2"
error-chain = { version = "0.12", default-features = false }
filebuffer = "*"
serde_json = "1"
serde-transcode = "1"
