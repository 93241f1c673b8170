[package]
name = "minmpeg"
version = "0.1.0"
edition = "2021"
publish = false

[dependencies]
rav1e = { version = "*", default-features = false }
image = { version = "*", default-features = false, features = ["png", "jpeg"] }
mp4 = "*"
thiserror = "*"
libc = "*"
