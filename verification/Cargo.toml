[package]
name = "rfc_cli"
version = "0.1.4"
edition = "2021"
publish = false

[dependencies]
serde_json = "1"
