[package]
name = "gitfs"
version = "0.1.0"
edition = "2021"
publish = false

[dependencies]
git2 = { version = "*", default-features = false }
fuse = "*"
libc = "*"
time = "0.1"
