[package]
name = "tower_ff"
version = "0.1.0"
edition = "2021"
publish = false

[dependencies]
ark-std = "0.5"
zeroize = "1"
