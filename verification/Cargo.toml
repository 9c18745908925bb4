[package]
name = "hardware"
version = "0.1.0"
edition = "2021"
publish = false

[dependencies]
goblin = "0.9"
nix = { version = "0.29", features = ["fs"] }
regex = "1"
