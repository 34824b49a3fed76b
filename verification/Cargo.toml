[package]
name = "maze_platformer"
version = "0.1.0"
edition = "2021"
publish = false

[dependencies]
rand = "=0.7.3"
image = { version = "=0.22.5", default-features = false, features = ["png_codec", "jpeg"] }
quicksilver = { version = "=0.4.0", default-features = false, features = ["font", "ttf"] }
palette = "=0.5.0"
nalgebra = "=0.29.0"
ncollide2d = "=0.32.0"
nphysics2d = "=0.24.0"
async-trait = "=0.1.92"
