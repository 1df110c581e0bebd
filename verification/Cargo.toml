[package]
name = "tome_catalog"
version = "0.1.0"
edition = "2021"
publish = false

[dependencies]
lofty = "*"
md5 = "*"
walkdir = "*"
