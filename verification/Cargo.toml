[package]
name = "rosomaxa"
version = "0.1.0"
edition = "2021"
publish = false

[dependencies]
hashbrown = "0.11"
rand = "0.8"
