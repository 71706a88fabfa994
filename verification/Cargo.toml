[package]
name = "stardust_server"
version = "0.1.0"
edition = "2021"
publish = false

[dependencies]
color-eyre = "0.6"
mint = "0.5"
parking_lot = "0.12"
portable-atomic = "1"
rand = "0.8"
rustc-hash = "1.1"
smithay = { version = "*", default-features = false, features = ["wayland_frontend"] }
stardust-xr = "*"
tracing = "0.1"
