[package]
name = "chien"
version = "0.1.0"
edition = "2021"
publish = false

[dependencies]
toml = "0.2"
hyper = "0.10"
iron = "0.6"
mount = "0.4"
postgres = "0.11"
rustc-serialize = "0.3"
