[package]
name = "argos"
version = "0.1.0"
edition = "2021"
publish = false

[dependencies]
memchr = "2"
thiserror = "2"
image = { version = "0.25", default-features = false, features = ["jpeg", "png"] }
memmap2 = "0.9"
libc = "0.2"
