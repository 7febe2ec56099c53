[package]
name = "lang_lib"
version = "0.1.0"
edition = "2021"
publish = false

[dependencies]
toml = "=1.1.8"
rustc-hash = "=2.1.3"
arc-swap = "=1.9.3"
registry-io = "=1.1.0"
notify = "=6.1.1"
