[package]
name = "license_me"
version = "0.1.0"
edition = "2021"
publish = false

[dependencies]
ansi_term = "*"
async-recursion = "*"
chrono = "*"
futures = "*"
indicatif = "*"
reqwest = { version = "*", default-features = false }
serde = { version = "*", features = ["derive"] }
serde_json = "*"
strum = "*"
strum_macros = "*"
sysinfo = "*"
tokio = { version = "*", features = ["macros", "rt-multi-thread", "fs", "io-util", "time"] }
walkdir = "*"
