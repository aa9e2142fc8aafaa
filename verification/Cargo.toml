[package]
name = "slovo"
version = "0.1.0"
edition = "2021"
publish = false

[dependencies]
rand = "0.8"
itertools = "0.12"
base64 = "0.13"
csv = "1"
owo-colors = "3"
