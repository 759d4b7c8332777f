[package]
name = "blake3"
version = "0.1.0"
edition = "2021"
publish = false

[dependencies]
arrayvec = "=0.5.2"

[dev-dependencies]
rand = "=0.7.3"
rand_chacha = "=0.2.2"
