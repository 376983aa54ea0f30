[package]
name = "umwtool"
version = "0.1.0"
edition = "2021"
publish = false

[dependencies]
glib = "0.18"
gtk = "0.18"
tray-item = { version = "0.10", features = ["libappindicator"] }
x11rb = "0.13"
