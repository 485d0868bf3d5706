[package]
name = "rewriting"
version = "0.1.0"
edition = "2021"
publish = false

[dependencies]
nalgebra = "0.32"
sdl2 = "0.35"
nom = "6"
