[package]
name = "tsfile_writer"
version = "0.1.0"
edition = "2021"
publish = false

[dependencies]
crc32fast = "=1.5.3"
rustc_apfloat = "*"
