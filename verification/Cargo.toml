[package]
name = "libparticleverse"
version = "0.1.0"
edition = "2021"
publish = false

[dependencies]
gdnative = "0.9"
legion = "0.3"
