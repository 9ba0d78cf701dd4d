[package]
name = "xml_texture_atlas"
version = "0.1.0"
edition = "2021"
publish = false

[dependencies]
xml-rs = "0.8"
thiserror = "*"
