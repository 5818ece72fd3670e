[package]
name = "everything_adapter"
version = "0.1.0"
edition = "2021"
publish = false

[dependencies]
everything-sys = "=0.1.4"
opener = "=0.9.0"
widestring = "=1.2.1"
