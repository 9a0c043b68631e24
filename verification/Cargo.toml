[package]
name = "text_ui"
version = "0.1.0"
edition = "2021"
publish = false

[dependencies]
unicode-segmentation = "=1.13.3"
termion = "=1.5.6"
signal-hook = "=0.1.17"
libc = "=0.2.191"
ggez = "=0.5.1"
