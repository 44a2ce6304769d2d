[package]
name = "shell"
version = "0.1.0"
edition = "2021"
publish = false

[dependencies]
chrono = "0.4"
crossterm = "0.27"
libc = "0.2"
users = "0.11"
xattr = "1"
