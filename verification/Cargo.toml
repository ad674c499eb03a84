[package]
name = "grid_editor"
version = "0.1.0"
edition = "2021"
publish = false

[dependencies]
neovim-lib = "=0.6.1"
rmp = "=0.8.9"
skulpin = "=0.5.2"
