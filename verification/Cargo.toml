[package]
name = "gf2n"
version = "0.1.0"
edition = "2021"
publish = false

[dependencies]
horcrux = "*"
libc = "0.2"
jni = "*"
