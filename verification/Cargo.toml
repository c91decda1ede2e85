[package]
name = "ax_snapshot"
version = "0.1.0"
edition = "2021"
publish = false

[dependencies]
serde_json = "1"
accessibility-sys = "*"
core-foundation = "*"
core-graphics-types = "*"
