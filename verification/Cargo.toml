[package]
name = "nyado"
version = "0.1.0"
edition = "2021"
publish = false

[dependencies]
users = "*"
libc = "*"
clap = { version = "*", features = ["derive"] }
pam = "*"
