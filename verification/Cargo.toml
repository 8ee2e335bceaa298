[package]
name = "musicman"
version = "0.1.0"
edition = "2021"
publish = false

[dependencies]
colored = "2"
dirs = "5"
rodio = "0.17"
