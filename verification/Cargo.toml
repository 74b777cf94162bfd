[package]
name = "hltas_framebulk_analyzer"
version = "0.1.0"
edition = "2021"
publish = false

[dependencies]
ansi_term = "*"
hltas = "*"
rust_decimal = "*"
rust_decimal_macros = "*"
