[package]
name = "open_mqa"
version = "0.1.0"
edition = "2021"
publish = false

[dependencies]
claxon = "*"
flacenc = "*"
opus-pure = "*"
thiserror = "*"
