[package]
name = "detect_media_type"
version = "0.1.0"
edition = "2021"
publish = false

[dependencies]
xml = "*"
regex = "*"
