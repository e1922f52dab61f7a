[package]
name = "red_eval"
version = "0.1.0"
edition = "2021"
publish = false

[dependencies]
base64 = "*"
crc32fast = "*"
flate2 = "*"
sha2 = "*"
rust_decimal = "*"
