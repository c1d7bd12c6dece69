[package]
name = "identicons_svg"
version = "0.1.0"
edition = "2021"
publish = false

[dependencies]
hex = "0.4"
rand = "0.8"
random_color = "0.6"
simple-xml-builder = "*"
webbrowser = "*"
