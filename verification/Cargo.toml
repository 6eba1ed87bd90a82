[package]
name = "ai2048_lib"
version = "0.1.0"
edition = "2021"
publish = false

[dependencies]
rand = "0.8"
bytecount = "0.6"
num = "0.4"
