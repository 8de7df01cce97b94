[package]
name = "barschbot"
version = "0.1.0"
edition = "2021"
publish = false

[dependencies]
arrayvec = "0.7"
bitintr = "0.3"
rayon = "1"
colored = "2"
errorfunctions = "*"

[dev-dependencies]
rand = "0.8"
rand_chacha = "0.3"
