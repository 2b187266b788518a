[package]
name = "repak"
version = "0.1.0"
edition = "2021"
publish = false

[dependencies]
strum = "*"
thiserror = "*"
ureq = { version = "*", default-features = false }
