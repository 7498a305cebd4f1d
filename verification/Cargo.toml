[package]
name = "disktree"
version = "0.1.0"
edition = "2021"
publish = false

[dependencies]
libc = "0.2"
rustix = { version = "1", features = ["fs"] }
objc2 = "0.6"
objc2-foundation = "0.3"
