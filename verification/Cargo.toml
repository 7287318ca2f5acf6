[package]
name = "fsic_syntax"
version = "0.1.0"
edition = "2021"
publish = false

[dependencies]
drop_bomb = "*"
logos = "*"
rowan = "*"
triomphe = "*"
