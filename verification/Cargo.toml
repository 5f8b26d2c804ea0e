[package]
name = "starship_daemon"
version = "0.1.0"
edition = "2021"
publish = false

[dependencies]
lru = "*"
toml = "*"
starship = { version = "*", default-features = false }
