[package]
name = "dwm_rust"
version = "0.1.0"
edition = "2021"
publish = false

[dependencies]
x11 = { version = "2", features = ["xlib", "xft", "xrender", "xinerama"] }
libc = "0.2"
