[package]
name = "iced_ntoggle"
version = "0.1.0"
edition = "2021"
publish = false

[dependencies]
iced = { version = "=0.14.0", default-features = false, features = ["thread-pool", "tiny-skia", "x11"] }
thiserror = "=2.0.21"
