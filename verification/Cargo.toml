[package]
name = "picurator"
version = "0.1.0"
edition = "2021"
publish = false

[dependencies]
dssim = "*"
rayon = "*"
walkdir = "*"
