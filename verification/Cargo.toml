[package]
name = "sway_analyzer"
version = "0.1.0"
edition = "2021"
publish = false

[dependencies]
sway-ast = "0.46"
sway-types = "0.46"
