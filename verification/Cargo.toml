[package]
name = "armstrong"
version = "0.1.0"
edition = "2021"
publish = false

[dependencies]
url = "2"
rustls = { version = "0.20", features = ["dangerous_configuration"] }
webpki-roots = "0.22"
cursive = { version = "0.20", default-features = false, features = ["crossterm-backend"] }
