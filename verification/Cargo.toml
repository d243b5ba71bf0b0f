[package]
name = "jdvrif"
version = "0.1.0"
edition = "2021"
publish = false

[dependencies]
alkali = "=0.3.0"
dryoc = "=2.0.0"
flate2 = "=1.1.10"
libc = "0.2"
zeroize = "=1.9.1"
