[package]
name = "statesync"
version = "0.1.0"
edition = "2021"
publish = false

[dependencies]
rustc-serialize = "=0.3.25"
hyper = "0.10"
clap = "2"
