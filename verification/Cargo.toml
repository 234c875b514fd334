[package]
name = "rs_regex"
version = "0.1.0"
edition = "2021"
publish = false

[dependencies]
clap = "*"

[dev-dependencies]
rand = "0.8"
