[package]
name = "gif_me_hd"
version = "0.1.0"
edition = "2021"
publish = false

[dependencies]
bitter = "*"

[dev-dependencies]
nom = "7"
