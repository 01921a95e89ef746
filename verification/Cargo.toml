[package]
name = "bn128"
version = "0.1.0"
edition = "2021"
publish = false

[dependencies]
substrate-bn = "=0.6.0"
jni = "=0.22.4"
