[package]
name = "fb_console"
version = "0.1.0"
edition = "2021"
publish = false

[dependencies]
bootloader_api = "0.11"
font8x8 = "*"
lazy_static = "1"
spin = "0.9"
