[package]
name = "novawm"
version = "0.1.0"
edition = "2021"
publish = false

[dependencies]
kdl = "6"
xkbcommon = "0.8"
smithay = { version = "*", default-features = false }
