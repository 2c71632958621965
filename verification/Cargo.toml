[package]
name = "xtra_cheez"
version = "0.1.0"
edition = "2021"
publish = false

[dependencies]
gl = "*"
glam = "*"
image = "*"
rand = "0.8"
sdl2 = "*"
