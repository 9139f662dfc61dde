[package]
name = "rustoji"
version = "0.1.0"
edition = "2021"
publish = false

[dependencies]
expanduser = "1"
serde = "1"
serde_json = "1"
