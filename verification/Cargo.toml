[package]
name = "mktdt"
version = "0.1.0"
edition = "2021"
publish = false

[dependencies]
anyhow = "1"
chrono = "0.4"
encoding_rs = "0.8"
encoding_rs_io = "0.1"
