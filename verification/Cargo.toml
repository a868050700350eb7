[package]
name = "reliable_udp"
version = "0.1.0"
edition = "2021"
publish = false

[dependencies]
byteorder = "*"
