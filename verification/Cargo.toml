[package]
name = "requestr"
version = "0.1.0"
edition = "2021"
publish = false

[dependencies]
objr = "=1.0.0"
tempfile = "=3.27.0"
