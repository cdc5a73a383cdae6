[package]
name = "lsb_hide"
version = "0.1.0"
edition = "2021"
publish = false

[dependencies]
anyhow = "1"
clap = { version = "4", features = ["derive"] }
colored = "*"
image = { version = "*", default-features = false, features = ["png", "bmp"] }
