[package]
name = "recognotes"
version = "0.2.0"
edition = "2021"
publish = false

[dependencies]
base64 = "0.22"
rustfft = "6"
num-complex = "0.4"
