[package]
name = "learn_os"
version = "0.1.0"
edition = "2021"
publish = false

[dependencies]
log = "0.4"
uefi = { version = "0.28", features = ["alloc", "logger"] }
uefi-raw = "0.5"
