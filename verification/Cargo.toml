[package]
name = "fleurs"
version = "0.1.0"
edition = "2021"
publish = false

[dependencies]
cpp_demangle = "*"
json = "*"
image = { version = "*", default-features = false, features = ["png"] }
