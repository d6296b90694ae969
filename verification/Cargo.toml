[package]
name = "kff"
version = "0.1.0"
edition = "2021"
publish = false

[dependencies]
serde_json = "*"
serde = { version = "*", features = ["derive"] }
clap = { version = "*", features = ["derive"] }
dirs = "*"
anyhow = "*"
fs_extra = "*"
git2 = { version = "*", default-features = false }
reqwest = { version = "*", default-features = false, features = ["blocking", "json"] }
flate2 = "*"
tar = "*"
indicatif = "*"
