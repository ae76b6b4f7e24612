[package]
name = "zpad"
version = "0.1.0"
edition = "2021"
publish = false

[dependencies]
serde = { version = "1", features = ["derive"] }
toml = "0.8"
gtk4 = { version = "*", features = ["v4_12"] }
ksni = { version = "*", features = ["blocking"] }
libc = "0.2"
