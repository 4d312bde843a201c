[package]
name = "texte-rs"
version = "0.1.0"
edition = "2021"
publish = false

[dependencies]
termion = "1.5"
unicode-segmentation = "1"
