[package]
name = "pkgbuild"
version = "0.1.0"
edition = "2021"
publish = false

[dependencies]
hex = "0.4"
libc = "0.2"
log = "0.4"
nix = { version = "*", features = ["fs"] }
tempfile = "3"
