[package]
name = "street_linker"
version = "0.1.0"
edition = "2021"
publish = false

[dependencies]
geocoder-abbreviations = "*"
serde_json = "*"
fancy-regex = "*"
memchr = "*"
