[package]
name = "puzznic"
version = "0.1.0"
edition = "2021"
publish = false

[dependencies]
regex = "1"
macroquad = { version = "0.3", features = ["audio"] }
async-trait = "0.1"
