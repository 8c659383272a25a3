[package]
name = "cubesat_protocols"
version = "0.1.0"
edition = "2021"
publish = false

[dependencies]
byteorder = "1"
serde_cbor = "0.8"
serial = "0.4"
