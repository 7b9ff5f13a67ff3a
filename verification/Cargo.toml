[package]
name = "flash_test"
version = "0.1.0"
edition = "2021"
publish = false

[dependencies]
sysinfo = "0.30"
