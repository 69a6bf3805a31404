[package]
name = "ty_microps"
version = "0.1.0"
edition = "2021"
publish = false

[dependencies]
bincode = "2"
log = "0.4"
env_logger = "0.11"
signal-hook = "0.3"
