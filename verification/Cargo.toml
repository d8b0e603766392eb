[package]
name = "serde_ply"
version = "0.2.2"
edition = "2021"
publish = false

[dependencies]
byteorder = "1"
serde = "1"
