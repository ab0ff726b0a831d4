[package]
name = "tyhtml"
version = "0.1.0"
edition = "2021"
publish = false

[dependencies]
typst = "=0.15.1"
typst-html = "=0.15.1"
typst-kit = { version = "=0.15.1", features = ["scan-fonts", "datetime"] }
typst-utils = "=0.15.1"
serde_json = "=1.0.154"
anyhow = "=1.0.104"
napi = { version = "=3.16.1", features = ["async"] }
napi-derive = "=3.7.0"
