[package]
name = "ethabi"
version = "0.1.0"
edition = "2021"
publish = false

[dependencies]
tiny-keccak = "1.4"
heck = "0.3"
