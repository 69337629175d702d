[package]
name = "path_to_unicode_filename"
version = "0.1.0"
edition = "2021"
publish = false

[dev-dependencies]
ucd = "*"
