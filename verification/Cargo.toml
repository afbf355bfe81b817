[package]
name = "theca"
version = "2.0.0"
edition = "2021"
publish = false

[dependencies]
argon2 = "0.5"
base64 = "0.22"
chacha20poly1305 = "0.10"
chrono = "0.4"
clap = { version = "4", features = ["derive", "env"] }
crossterm = "0.27"
dirs = "5"
libc = "0.2"
regex = "1"
rpassword = "7"
serde = { version = "1", features = ["derive"] }
serde_yaml = "0.9"
tempfile = "3"
