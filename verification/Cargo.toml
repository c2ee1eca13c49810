[package]
name = "minesweeper"
version = "0.1.0"
edition = "2021"
publish = false

[dependencies]
cgmath = "0.18"
gl = "0.14"
png = "0.17"
rand = "0.8"
sdl2 = "0.35"
