[package]
name = "fwumious_wabbit"
version = "0.1.0"
edition = "2021"
publish = false

[dependencies]
merand48 = "*"
triomphe = { version = "*", default-features = false, features = ["std"] }
