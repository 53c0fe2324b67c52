[package]
name = "dirwatch"
version = "0.1.0"
edition = "2021"
publish = false

[dependencies]
tokio = { version = "*", features = ["fs", "rt-multi-thread"] }
async-recursion = "*"
libc = "*"
dekor = "*"
