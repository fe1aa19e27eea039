[package]
name = "message_repeater"
version = "0.1.0"
edition = "2021"
publish = false

[dependencies]
enigo = "*"
