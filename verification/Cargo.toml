[package]
name = "daisy"
version = "0.1.0"
edition = "2021"
publish = false

[dependencies]
toml = "*"
uzers = "*"
ssh2 = "*"
libssh2-sys = "*"
clap = { version = "*", features = ["derive"] }
log = "*"
simplelog = "*"
thiserror = "*"
