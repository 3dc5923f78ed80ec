[package]
name = "chessdata"
version = "0.1.0"
edition = "2021"
publish = false

[dependencies]
dama = "*"
rand = "*"
clap = { version = "*", features = ["derive"] }
tempfile = "*"

[dev-dependencies]
rand_xoshiro = "*"
