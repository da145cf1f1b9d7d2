[package]
name = "nbody"
version = "0.1.0"
edition = "2021"

[dependencies]
rand = "=0.8.8"
rand_distr = "=0.4.3"
piston = "*"
piston2d-graphics = "*"
piston2d-opengl_graphics = "*"
