[package]
name = "waylock-rs"
version = "0.1.0"
edition = "2021"
publish = false

[dependencies]
libc = "=0.2.191"
pam-client2 = "=0.5.5"
smithay-client-toolkit = "=0.20.0"
wayland-client = "=0.31.15"

[dev-dependencies]
xkeysym = "=0.2.1"
