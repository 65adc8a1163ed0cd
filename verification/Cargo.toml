[package]
name = "baan"
version = "0.1.0"
edition = "2021"
publish = false

[dependencies]
arboard = { version = "3", default-features = false, features = ["wayland-data-control"] }
clap = { version = "4", features = ["derive", "env"] }
libc = "0.2"
toml = "*"
tracing = "0.1"
tracing-subscriber = { version = "0.3", features = ["env-filter"] }
wait-timeout = "0.2"
