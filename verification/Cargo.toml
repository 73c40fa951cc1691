[package]
name = "blob_simulator"
version = "0.1.0"
edition = "2021"
publish = false

[dependencies]
num-traits = "0.2"
rand = "*"
rayon = "1"
thiserror = "*"
winit = "0.30"
softbuffer = "0.4"
