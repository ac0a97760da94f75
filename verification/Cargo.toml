[package]
name = "goblin_maker"
version = "0.1.0"
edition = "2021"
publish = false

[dependencies]
macroquad = "*"
nanoserde = "*"
base64 = "*"
asefile = "*"
image = "*"
quad-net = "*"
