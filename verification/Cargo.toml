[package]
name = "xeen_sprite_convert"
version = "0.1.0"
edition = "2021"
publish = false

[dependencies]
image = "*"
