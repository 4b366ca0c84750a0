[package]
name = "multiscale_detect"
version = "0.1.0"
edition = "2021"
publish = false

[dependencies]
image = { version = "=0.25.10", default-features = false, features = ["bmp", "gif", "jpeg", "png"] }
ndarray = "=0.16.1"
ort = { version = "=2.0.0-rc.8", default-features = false, features = ["half", "load-dynamic", "ndarray"] }
ort-sys = { version = "=2.0.0-rc.8", default-features = false }
