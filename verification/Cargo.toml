[package]
name = "crc_rocksoft"
version = "0.1.0"
edition = "2021"
publish = false

[dependencies]
bit_reverse = "0.1"
