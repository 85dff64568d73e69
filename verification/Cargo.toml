[package]
name = "pop"
version = "0.1.0"
edition = "2021"
publish = false

[dependencies]
env_logger = "*"
gl = "0.14"
log = "0.4"
sdl2 = "*"
