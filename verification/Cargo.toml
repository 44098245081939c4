[package]
name = "struckdown"
version = "0.1.0"
edition = "2021"
publish = false

[dependencies]
pulldown-cmark = "0.8"
serde_yaml = "0.8"
