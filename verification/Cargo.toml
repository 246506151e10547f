[package]
name = "vex"
version = "0.1.0"
edition = "2021"
publish = false

[dependencies]
wson_rs = "*"
serde_json = "*"
colorex = "*"
