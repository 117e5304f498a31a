[package]
name = "libwing"
version = "0.1.0"
edition = "2021"
publish = false

[dependencies]
jzon = "*"
lazy_static = "1"
rustler = "*"
socket2 = "0.5"
thiserror = "*"
