[package]
name = "nxc"
version = "0.1.0"
edition = "2021"
publish = false

[dependencies]
rnix = "0.12"
rowan = "0.15"
stacker = "0.1"
clap = { version = "4", features = ["derive"] }
