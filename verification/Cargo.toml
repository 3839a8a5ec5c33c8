[package]
name = "drip"
version = "0.1.0"
edition = "2021"
publish = false

[dependencies]
rowan = "*"
text-size = "*"
drop_bomb = "*"
color-eyre = "*"
