[package]
name = "mago_analysis"
version = "0.1.0"
edition = "2021"
publish = false

[dependencies]
ahash = "=0.8.12"
indexmap = "=2.14.2"
strsim = "=0.11.1"
