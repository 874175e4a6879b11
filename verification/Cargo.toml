[package]
name = "wavethumb"
version = "0.1.0"
edition = "2021"
publish = false

[dependencies]
argparse = "0.2"
image = { version = "0.24", default-features = false, features = ["png"] }
num = "0.4"
wav = "1.0"
