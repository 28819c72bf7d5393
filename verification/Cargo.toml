[package]
name = "alloy"
version = "0.1.0"
edition = "2021"
publish = false

[dependencies]
cgmath = "=0.18.0"
glium = "=0.32.1"
image = { version = "=0.24.9", default-features = false, features = ["bmp", "gif", "ico", "jpeg", "png"] }
log = "=0.4.34"
thiserror = "=1.0.69"
typed-builder = "=0.23.2"
