[package]
name = "xx_bloomfilter"
version = "0.1.0"
edition = "2021"
publish = false

[dependencies]
bit-vec = "*"
rand = "*"
twox-hash = "*"
serde = { version = "*", features = ["derive"] }
