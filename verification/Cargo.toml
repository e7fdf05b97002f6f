[package]
name = "bacon"
version = "0.1.0"
edition = "2021"
publish = false

[dependencies]
anyhow = "1.0"
termimad = "0.9"
vte = "0.8"
