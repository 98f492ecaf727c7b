[package]
name = "clink"
version = "0.1.0"
edition = "2021"
publish = false

[dependencies]
docopt = "1"
toml = "0.8"
uuid = { version = "1", features = ["v4"] }
walkdir = "2"
xml-rs = "0.8"
