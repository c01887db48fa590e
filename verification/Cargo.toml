[package]
name = "pods"
version = "0.1.0"
edition = "2021"
publish = false

[dependencies]
vte = "=0.15.0"
serde = { version = "=1.0.229", features = ["derive"] }
names = { version = "=0.14.0", default-features = false }
glib = "*"
gettext-rs = "*"
