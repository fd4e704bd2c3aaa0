[package]
name = "basicauth"
version = "0.1.0"
edition = "2021"
publish = false

[dependencies]
base64 = "0.13"
log = "0.4"
rocket = "0.5"
