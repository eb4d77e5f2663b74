[package]
name = "oxideav_dts"
version = "0.1.0"
edition = "2021"
publish = false

[dependencies]
oxideav-core = "*"
