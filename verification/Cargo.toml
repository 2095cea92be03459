[package]
name = "panda_party"
version = "0.1.0"
edition = "2021"
publish = false

[dependencies]
panda_pile = "*"
slice_n = "*"
wrapper = "*"
arbitrary = { version = "*", features = ["derive"] }
