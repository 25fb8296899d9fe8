[package]
name = "firefox-rs"
version = "0.1.0"
edition = "2021"
publish = false

[dependencies]
dirs = "5"
lz4_flex = "0.11"
serde_json = "1"
thiserror = "1"
