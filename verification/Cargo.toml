[package]
name = "rezz"
version = "0.1.0"
edition = "2021"
publish = false

[dependencies]
libc = "*"
time = { version = "*", features = ["std", "local-offset", "formatting"] }
tokio = { version = "*", features = ["macros", "rt", "signal", "sync", "time"] }
