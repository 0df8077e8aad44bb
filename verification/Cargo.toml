[package]
name = "line_drawing"
version = "0.1.0"
edition = "2021"
publish = false

[dependencies]
image = "*"

[dev-dependencies]
rand = "*"
